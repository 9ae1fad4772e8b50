//! Glyph map and layer-ring configuration (the contents of `layers.toml`).
//!
//! Physical function keys (F13–F24) appear only in the `[keys]` aliases and the raw
//! `[navigation]` keys. Past the config, the daemon speaks only logical key names
//! (e.g. "SL1", "G6") and the prev/next navigation actions. `[keys]` and
//! `[navigation]` partition the keyspace: a key may not be both.
//!
//! Logical names are canonical uppercase; config references are matched
//! case-insensitively.

use vstd::prelude::*;
use crate::text::{chars_of, push_char, upper_char, char_uppercase, str_eq, to_upper, uppercase, first_char_of};
use crate::keymap::KeyMap;
use crate::config::{ButtonGroup, ButtonLegend, GroupModel, LayoutInfo, LayoutModel};

verus! {

/// Title-cases a layer name: every `_` becomes a space and the first character of
/// each word goes through `char::to_uppercase`.
pub open spec fn title_case(name: Seq<char>, word_start: bool) -> Seq<char>
    decreases name.len(),
{
    if name.len() == 0 {
        Seq::empty()
    } else if name[0] == '_' {
        seq![' '] + title_case(name.drop_first(), true)
    } else if word_start {
        char_uppercase(name[0]) + title_case(name.drop_first(), false)
    } else {
        seq![name[0]] + title_case(name.drop_first(), false)
    }
}

/// The default label of a layer (`right_arrows` -> `Right Arrows`).
pub open spec fn derived_label(name: Seq<char>) -> Seq<char> {
    title_case(name, true)
}

/// Title-case a layer name for the default label (`right_arrows` -> `Right Arrows`).
pub fn derive_label(name: &str) -> (r: String)
    ensures
        r@ == derived_label(name@),
{
    let chars = chars_of(name);
    let ghost s = chars@;
    let mut out = String::new();
    let mut start = true;
    let mut i: usize = 0;
    assert(s.skip(0) =~= s);
    while i < chars.len()
        invariant
            s == chars@,
            s == name@,
            i <= s.len(),
            out@ + title_case(s.skip(i as int), start) == derived_label(s),
        decreases s.len() - i,
    {
        let c = chars[i];
        assert(s.skip(i as int).drop_first() =~= s.skip(i + 1));
        assert(s.skip(i as int)[0] == c);
        let ghost before = out@;
        if c == '_' {
            push_char(&mut out, ' ');
            start = true;
            assert(out@ + title_case(s.skip(i + 1), true) =~= before + title_case(s.skip(i as int), true));
        } else if start {
            let u = upper_char(c);
            out.append(u.as_str());
            start = false;
            assert(out@ + title_case(s.skip(i + 1), false) =~= before + title_case(s.skip(i as int), true));
        } else {
            push_char(&mut out, c);
            assert(out@ + title_case(s.skip(i + 1), false) =~= before + title_case(s.skip(i as int), false));
        }
        i += 1;
    }
    assert(title_case(s.skip(i as int), start) =~= Seq::<char>::empty());
    assert(out@ =~= out@ + Seq::<char>::empty());
    out
}

/// The strings of `v`, as a set of character sequences.
pub open spec fn str_set(v: Seq<String>) -> Set<Seq<char>> {
    Set::new(|k: Seq<char>| exists|i: int| 0 <= i < v.len() && #[trigger] v[i]@ == k)
}

/// The strings of `v`, as character sequences.
pub open spec fn strs(v: Seq<String>) -> Seq<Seq<char>> {
    v.map_values(|s: String| s@)
}

/// Whether `k` is one of the strings of `v`.
pub fn contains_str(v: &Vec<String>, k: &str) -> (r: bool)
    ensures
        r == str_set(v@).contains(k@),
{
    let mut i: usize = 0;
    while i < v.len()
        invariant
            i <= v@.len(),
            forall|j: int| 0 <= j < i ==> v@[j]@ != k@,
        decreases v@.len() - i,
    {
        if str_eq(v[i].as_str(), k) {
            return true;
        }
        i += 1;
    }
    false
}

/// Legends of one group: its keys in order, each key counted only in the first
/// group (or first position) that lists it, and only keys with a glyph shown.
pub open spec fn group_legends(
    keys: Seq<Seq<char>>,
    assigned: Set<Seq<char>>,
    glyphs: Map<Seq<char>, Seq<char>>,
) -> Seq<Seq<char>>
    decreases keys.len(),
{
    if keys.len() == 0 {
        Seq::empty()
    } else {
        let k = keys[0];
        let rest = group_legends(keys.drop_first(), assigned.insert(k), glyphs);
        if assigned.contains(k) || !glyphs.contains_key(k) {
            rest
        } else {
            seq![glyphs[k]] + rest
        }
    }
}

/// The labeled groups in declaration order; a group left with no legend is dropped.
pub open spec fn named_groups(
    groups: Seq<(Seq<char>, Seq<Seq<char>>)>,
    assigned: Set<Seq<char>>,
    glyphs: Map<Seq<char>, Seq<char>>,
) -> Seq<GroupModel>
    decreases groups.len(),
{
    if groups.len() == 0 {
        Seq::empty()
    } else {
        let (label, keys) = groups[0];
        let buttons = group_legends(keys, assigned, glyphs);
        let rest = named_groups(groups.drop_first(), assigned.union(keys.to_set()), glyphs);
        if buttons.len() > 0 {
            seq![GroupModel { label: Some(label), buttons }] + rest
        } else {
            rest
        }
    }
}

/// Every key listed by some group.
pub open spec fn grouped_keys(groups: Seq<(Seq<char>, Seq<Seq<char>>)>) -> Set<Seq<char>> {
    Set::new(|k: Seq<char>| exists|i: int| 0 <= i < groups.len() && #[trigger] groups[i].1.contains(k))
}

/// Legends of the typeable keys that no group lists, in canonical order.
pub open spec fn anonymous_legends(
    order: Seq<Seq<char>>,
    grouped: Set<Seq<char>>,
    glyphs: Map<Seq<char>, Seq<char>>,
) -> Seq<Seq<char>>
    decreases order.len(),
{
    if order.len() == 0 {
        Seq::empty()
    } else {
        let k = order[0];
        let rest = anonymous_legends(order.drop_first(), grouped, glyphs);
        if grouped.contains(k) || !glyphs.contains_key(k) {
            rest
        } else {
            seq![glyphs[k]] + rest
        }
    }
}

/// The overlay groups of one layer: the unlabeled group of ungrouped typeable keys
/// first (when it has any legend), then the labeled groups.
pub open spec fn organized(
    groups: Seq<(Seq<char>, Seq<Seq<char>>)>,
    order: Seq<Seq<char>>,
    glyphs: Map<Seq<char>, Seq<char>>,
) -> Seq<GroupModel> {
    let anon = anonymous_legends(order, grouped_keys(groups), glyphs);
    let named = named_groups(groups, Set::empty(), glyphs);
    if anon.len() > 0 {
        seq![GroupModel { label: None, buttons: anon }] + named
    } else {
        named
    }
}

/// The groups as (label, keys) character sequences.
pub open spec fn groups_view(groups: Seq<(String, Vec<String>)>) -> Seq<(Seq<char>, Seq<Seq<char>>)> {
    groups.map_values(|g: (String, Vec<String>)| (g.0@, strs(g.1@)))
}

/// The glyph table as a map of character sequences.
pub open spec fn glyph_view(m: Map<Seq<char>, String>) -> Map<Seq<char>, Seq<char>> {
    m.map_values(|g: String| g@)
}

/// Legends of one group (see `group_legends`), appending the keys it claims to `assigned`.
fn collect_group(
    keys: &Vec<String>,
    assigned: &mut Vec<String>,
    key_to_glyph: &KeyMap<String>,
) -> (buttons: Vec<ButtonLegend>)
    ensures
        buttons@.map_values(|b: ButtonLegend| b.display@)
            == group_legends(strs(keys@), str_set(old(assigned)@), glyph_view(key_to_glyph.view())),
        str_set(final(assigned)@) == str_set(old(assigned)@).union(strs(keys@).to_set()),
{
    let ghost ks = strs(keys@);
    let ghost glyphs = glyph_view(key_to_glyph.view());
    let ghost a0 = str_set(assigned@);
    let mut buttons: Vec<ButtonLegend> = Vec::new();
    let mut i: usize = 0;
    assert(ks.skip(0) =~= ks);
    assert(str_set(assigned@) =~= a0.union(ks.take(0).to_set()));
    while i < keys.len()
        invariant
            ks == strs(keys@),
            glyphs == glyph_view(key_to_glyph.view()),
            i <= keys@.len(),
            str_set(assigned@) == a0.union(ks.take(i as int).to_set()),
            buttons@.map_values(|b: ButtonLegend| b.display@)
                + group_legends(ks.skip(i as int), str_set(assigned@), glyphs)
                == group_legends(ks, a0, glyphs),
        decreases keys@.len() - i,
    {
        let key = &keys[i];
        let ghost k = key@;
        let ghost before_a = str_set(assigned@);
        let ghost before_b = buttons@.map_values(|b: ButtonLegend| b.display@);
        assert(ks[i as int] == k);
        assert(ks.skip(i as int).drop_first() =~= ks.skip(i + 1));
        assert(ks.skip(i as int)[0] == k);
        assert(ks.take(i + 1).to_set() =~= ks.take(i as int).to_set().insert(k)) by {
            let t1 = ks.take(i + 1);
            let t0 = ks.take(i as int);
            assert forall|q: Seq<char>| t1.to_set().contains(q) == t0.to_set().insert(k).contains(q) by {
                if t1.contains(q) {
                    let j = choose|j: int| 0 <= j < t1.len() && t1[j] == q;
                    if j < i {
                        assert(t0[j] == q);
                    }
                }
                if t0.contains(q) {
                    let j = choose|j: int| 0 <= j < t0.len() && t0[j] == q;
                    assert(t1[j] == q);
                }
                if q == k {
                    assert(t1[i as int] == q);
                }
            }
        }
        if contains_str(assigned, key.as_str()) {
            assert(before_a.insert(k) =~= before_a);
        } else {
            let ghost bv = assigned@;
            assigned.push(key.clone());
            assert(str_set(assigned@) =~= before_a.insert(k)) by {
                assert(assigned@[assigned@.len() - 1]@ == k);
                assert forall|q: Seq<char>| str_set(assigned@).contains(q) == before_a.insert(k).contains(q) by {
                    if str_set(assigned@).contains(q) {
                        let j = choose|j: int| 0 <= j < assigned@.len() && #[trigger] assigned@[j]@ == q;
                        if j < assigned@.len() - 1 {
                            assert(bv[j]@ == q);
                        }
                    }
                    if before_a.contains(q) {
                        let j = choose|j: int| 0 <= j < bv.len() && #[trigger] bv[j]@ == q;
                        assert(assigned@[j]@ == q);
                    }
                }
            }
            match key_to_glyph.get(key.as_str()) {
                Some(glyph) => {
                    buttons.push(ButtonLegend { display: glyph.clone() });
                    assert(buttons@.map_values(|b: ButtonLegend| b.display@) =~= before_b.push(glyphs[k]));
                },
                None => {},
            }
        }
        i += 1;
    }
    assert(ks.take(keys@.len() as int) =~= ks);
    assert(group_legends(ks.skip(i as int), str_set(assigned@), glyphs) =~= Seq::<Seq<char>>::empty());
    assert(buttons@.map_values(|b: ButtonLegend| b.display@) =~= buttons@.map_values(|b: ButtonLegend| b.display@) + Seq::<Seq<char>>::empty());
    buttons
}

/// Build overlay groups for one layer from pre-resolved (logical) global groups and the
/// layer's logical key→glyph map. A key listed in more than one group is assigned to the
/// first. Typeable keys present in the layer but in no group form an unlabeled group
/// rendered first (in `typeable_order`).
pub fn organize_groups(
    groups: &Vec<(String, Vec<String>)>,
    typeable_order: &Vec<String>,
    key_to_glyph: &KeyMap<String>,
) -> (r: Vec<ButtonGroup>)
    ensures
        r@.map_values(|g: ButtonGroup| g@)
            == organized(groups_view(groups@), strs(typeable_order@), glyph_view(key_to_glyph.view())),
{
    let ghost gs = groups_view(groups@);
    let ghost glyphs = glyph_view(key_to_glyph.view());
    let mut assigned: Vec<String> = Vec::new();
    let mut named: Vec<ButtonGroup> = Vec::new();
    let mut gi: usize = 0;
    assert(gs.skip(0) =~= gs);
    assert(str_set(assigned@) =~= grouped_keys(gs.take(0)));
    assert(str_set(assigned@) =~= Set::<Seq<char>>::empty());
    assert(named@.map_values(|g: ButtonGroup| g@) =~= Seq::<GroupModel>::empty());
    while gi < groups.len()
        invariant
            gs == groups_view(groups@),
            glyphs == glyph_view(key_to_glyph.view()),
            gi <= groups@.len(),
            str_set(assigned@) == grouped_keys(gs.take(gi as int)),
            named@.map_values(|g: ButtonGroup| g@)
                + named_groups(gs.skip(gi as int), str_set(assigned@), glyphs)
                == named_groups(gs, Set::empty(), glyphs),
        decreases groups@.len() - gi,
    {
        let label = &groups[gi].0;
        let keys = &groups[gi].1;
        let ghost a_before = str_set(assigned@);
        let ghost n_before = named@.map_values(|g: ButtonGroup| g@);
        assert(gs[gi as int] == (label@, strs(keys@)));
        assert(gs.skip(gi as int).drop_first() =~= gs.skip(gi + 1));
        assert(gs.skip(gi as int)[0] == gs[gi as int]);
        let buttons = collect_group(keys, &mut assigned, key_to_glyph);
        assert(grouped_keys(gs.take(gi + 1)) =~= a_before.union(strs(keys@).to_set())) by {
            let t1 = gs.take(gi + 1);
            let t0 = gs.take(gi as int);
            assert forall|q: Seq<char>| grouped_keys(t1).contains(q)
                == a_before.union(strs(keys@).to_set()).contains(q) by {
                if grouped_keys(t1).contains(q) {
                    let j = choose|j: int| 0 <= j < t1.len() && #[trigger] t1[j].1.contains(q);
                    if j < gi {
                        assert(t0[j] == t1[j]);
                    }
                }
                if grouped_keys(t0).contains(q) {
                    let j = choose|j: int| 0 <= j < t0.len() && #[trigger] t0[j].1.contains(q);
                    assert(t0[j] == t1[j]);
                }
                if strs(keys@).to_set().contains(q) {
                    assert(t1[gi as int].1.contains(q));
                }
            }
        }
        if buttons.len() > 0 {
            let ghost bv = buttons@.map_values(|b: ButtonLegend| b.display@);
            named.push(ButtonGroup { label: Some(label.clone()), buttons });
            assert(named@.map_values(|g: ButtonGroup| g@) =~= n_before.push(GroupModel { label: Some(label@), buttons: bv }));
        }
        gi += 1;
    }
    assert(gs.take(groups@.len() as int) =~= gs);
    assert(named_groups(gs.skip(gi as int), str_set(assigned@), glyphs) =~= Seq::<GroupModel>::empty());
    let ghost named_view = named@.map_values(|g: ButtonGroup| g@);
    assert(named_view =~= named_view + Seq::<GroupModel>::empty());

    let ghost order = strs(typeable_order@);
    let ghost grouped = grouped_keys(gs);
    let mut anonymous: Vec<ButtonLegend> = Vec::new();
    let mut i: usize = 0;
    assert(order.skip(0) =~= order);
    while i < typeable_order.len()
        invariant
            order == strs(typeable_order@),
            glyphs == glyph_view(key_to_glyph.view()),
            grouped == str_set(assigned@),
            i <= typeable_order@.len(),
            anonymous@.map_values(|b: ButtonLegend| b.display@)
                + anonymous_legends(order.skip(i as int), grouped, glyphs)
                == anonymous_legends(order, grouped, glyphs),
        decreases typeable_order@.len() - i,
    {
        let key = &typeable_order[i];
        let ghost before = anonymous@.map_values(|b: ButtonLegend| b.display@);
        assert(order.skip(i as int).drop_first() =~= order.skip(i + 1));
        assert(order.skip(i as int)[0] == key@);
        if !contains_str(&assigned, key.as_str()) {
            match key_to_glyph.get(key.as_str()) {
                Some(glyph) => {
                    anonymous.push(ButtonLegend { display: glyph.clone() });
                    assert(anonymous@.map_values(|b: ButtonLegend| b.display@) =~= before.push(glyphs[key@]));
                },
                None => {},
            }
        }
        i += 1;
    }
    let ghost anon = anonymous@.map_values(|b: ButtonLegend| b.display@);
    assert(anonymous_legends(order.skip(i as int), grouped, glyphs) =~= Seq::<Seq<char>>::empty());
    assert(anon =~= anon + Seq::<Seq<char>>::empty());

    let mut result: Vec<ButtonGroup> = Vec::new();
    if anonymous.len() > 0 {
        result.push(ButtonGroup { label: None, buttons: anonymous });
    }
    let ghost prefix = result@;
    let mut named = named;
    result.append(&mut named);
    assert(result@.map_values(|g: ButtonGroup| g@) =~= prefix.map_values(|g: ButtonGroup| g@) + named_view);
    result
}

/// Physical function key `i` of the twelve the devices can emit, in canonical
/// render order (`F13` … `F24`).
pub open spec fn fkey_name(i: int) -> Seq<char> {
    if i == 0 { "F13"@ }
    else if i == 1 { "F14"@ }
    else if i == 2 { "F15"@ }
    else if i == 3 { "F16"@ }
    else if i == 4 { "F17"@ }
    else if i == 5 { "F18"@ }
    else if i == 6 { "F19"@ }
    else if i == 7 { "F20"@ }
    else if i == 8 { "F21"@ }
    else if i == 9 { "F22"@ }
    else if i == 10 { "F23"@ }
    else { "F24"@ }
}

/// Number of physical function keys.
pub const FKEY_COUNT: usize = 12;

/// Whether `s` names one of the physical function keys F13–F24 (exact spelling).
pub open spec fn is_fkey(s: Seq<char>) -> bool {
    exists|i: int| 0 <= i < 12 && s == #[trigger] fkey_name(i)
}

/// The name of physical function key `i`.
pub fn fkey(i: usize) -> (r: &'static str)
    requires
        i < 12,
    ensures
        r@ == fkey_name(i as int),
{
    if i == 0 { "F13" }
    else if i == 1 { "F14" }
    else if i == 2 { "F15" }
    else if i == 3 { "F16" }
    else if i == 4 { "F17" }
    else if i == 5 { "F18" }
    else if i == 6 { "F19" }
    else if i == 7 { "F20" }
    else if i == 8 { "F21" }
    else if i == 9 { "F22" }
    else if i == 10 { "F23" }
    else { "F24" }
}

/// Whether `s` names one of the physical function keys F13–F24.
pub fn is_function_key(s: &str) -> (r: bool)
    ensures
        r == is_fkey(s@),
{
    let mut i: usize = 0;
    while i < FKEY_COUNT
        invariant
            i <= 12,
            forall|j: int| 0 <= j < i ==> s@ != #[trigger] fkey_name(j),
        decreases 12 - i,
    {
        if str_eq(s, fkey(i)) {
            return true;
        }
        i += 1;
    }
    false
}

/// A `[[groups]]` entry: its label and the keys it lists, in render order.
#[derive(Debug, Clone)]
pub struct GroupDef {
    pub label: String,
    pub keys: Vec<String>,
}

/// A `[layers.<name>]` table: an optional label and the key → glyph bindings.
#[derive(Debug, Clone)]
pub struct LayerDef {
    pub label: Option<String>,
    pub buttons: Vec<(String, String)>,
}

/// `[navigation]` section: which keys cycle the layer ring.
#[derive(Debug, Clone)]
pub struct NavigationDef {
    pub prev: Option<String>,
    pub next: Option<String>,
}

/// `layers.toml` as read: every table as its entries, before any resolution.
#[derive(Debug, Clone)]
pub struct RawConfig {
    /// Physical F-key -> logical alias (e.g. F13 = "SL1"). The only place F-keys appear.
    pub keys: Vec<(String, String)>,
    pub navigation: NavigationDef,
    pub layer_order: Vec<String>,
    pub groups: Vec<GroupDef>,
    /// Layer name -> layer definition.
    pub layers: Vec<(String, LayerDef)>,
}

/// A layer definition as character sequences: name, optional label, bindings.
pub type LayerModel = (Seq<char>, Option<Seq<char>>, Seq<(Seq<char>, Seq<char>)>);

/// The raw configuration as character sequences.
pub struct RawModel {
    pub keys: Seq<(Seq<char>, Seq<char>)>,
    pub prev: Option<Seq<char>>,
    pub next: Option<Seq<char>>,
    pub layer_order: Seq<Seq<char>>,
    pub groups: Seq<(Seq<char>, Seq<Seq<char>>)>,
    pub layers: Seq<LayerModel>,
}

/// The string pairs as pairs of character sequences.
pub open spec fn pairs(v: Seq<(String, String)>) -> Seq<(Seq<char>, Seq<char>)> {
    v.map_values(|e: (String, String)| (e.0@, e.1@))
}

impl View for RawConfig {
    type V = RawModel;

    open spec fn view(&self) -> RawModel {
        RawModel {
            keys: pairs(self.keys@),
            prev: crate::config::opt_view(self.navigation.prev),
            next: crate::config::opt_view(self.navigation.next),
            layer_order: strs(self.layer_order@),
            groups: self.groups@.map_values(|g: GroupDef| (g.label@, strs(g.keys@))),
            layers: self.layers@.map_values(
                |l: (String, LayerDef)| (l.0@, crate::config::opt_view(l.1.label), pairs(l.1.buttons@)),
            ),
        }
    }
}

/// The `[keys]` table resolved (names as given): physical F-key -> logical name,
/// entries naming no F13–F24 key skipped, a later entry for the same key winning.
pub open spec fn alias_table(keys: Seq<(Seq<char>, Seq<char>)>) -> Map<Seq<char>, Seq<char>>
    decreases keys.len(),
{
    if keys.len() == 0 {
        Map::empty()
    } else {
        let prev = alias_table(keys.drop_last());
        let p = keys.last().0;
        if is_fkey(p) {
            prev.insert(p, keys.last().1)
        } else {
            prev
        }
    }
}

/// Every logical name that `[keys]` assigns to an F13–F24 key.
pub open spec fn logical_names(keys: Seq<(Seq<char>, Seq<char>)>) -> Set<Seq<char>>
    decreases keys.len(),
{
    if keys.len() == 0 {
        Set::empty()
    } else {
        let prev = logical_names(keys.drop_last());
        if is_fkey(keys.last().0) {
            prev.insert(keys.last().1)
        } else {
            prev
        }
    }
}

/// A config reference resolved to its logical name: a logical name itself, or an
/// aliased physical key. Anything else does not resolve.
pub open spec fn resolve(
    table: Map<Seq<char>, Seq<char>>,
    names: Set<Seq<char>>,
    name: Seq<char>,
) -> Option<Seq<char>> {
    if names.contains(name) {
        Some(name)
    } else if table.contains_key(name) {
        Some(table[name])
    } else {
        None
    }
}

/// The references that resolve, resolved, in order.
pub open spec fn resolve_keys(
    table: Map<Seq<char>, Seq<char>>,
    names: Set<Seq<char>>,
    keys: Seq<Seq<char>>,
) -> Seq<Seq<char>>
    decreases keys.len(),
{
    if keys.len() == 0 {
        Seq::empty()
    } else {
        let prev = resolve_keys(table, names, keys.drop_last());
        match resolve(table, names, keys.last()) {
            Some(l) => prev.push(l),
            None => prev,
        }
    }
}

/// The global groups with their keys resolved to logical names.
pub open spec fn resolved_groups(
    table: Map<Seq<char>, Seq<char>>,
    names: Set<Seq<char>>,
    groups: Seq<(Seq<char>, Seq<Seq<char>>)>,
) -> Seq<(Seq<char>, Seq<Seq<char>>)> {
    groups.map_values(|g: (Seq<char>, Seq<Seq<char>>)| (g.0, resolve_keys(table, names, g.1)))
}

/// Logical names of the aliased typeable keys, in canonical (physical) order, over the
/// first `n` function keys.
pub open spec fn typeable_upto(table: Map<Seq<char>, Seq<char>>, n: nat) -> Seq<Seq<char>>
    decreases n,
{
    if n == 0 {
        Seq::empty()
    } else {
        let prev = typeable_upto(table, (n - 1) as nat);
        let f = fkey_name(n - 1);
        if table.contains_key(f) {
            prev.push(table[f])
        } else {
            prev
        }
    }
}

/// A layer's bindings resolved: logical name -> glyph, for bindings whose key
/// resolves and whose glyph is not empty; a later binding for the same key wins.
pub open spec fn button_glyphs(
    table: Map<Seq<char>, Seq<char>>,
    names: Set<Seq<char>>,
    buttons: Seq<(Seq<char>, Seq<char>)>,
) -> Map<Seq<char>, Seq<char>>
    decreases buttons.len(),
{
    if buttons.len() == 0 {
        Map::empty()
    } else {
        let prev = button_glyphs(table, names, buttons.drop_last());
        let (k, g) = buttons.last();
        match resolve(table, names, k) {
            Some(l) => if g.len() > 0 { prev.insert(l, g) } else { prev },
            None => prev,
        }
    }
}

/// The character typed for each glyph: its first character.
pub open spec fn typed_chars(glyphs: Map<Seq<char>, Seq<char>>) -> Map<Seq<char>, char> {
    glyphs.map_values(|g: Seq<char>| g[0])
}

/// The label a layer shows: its own, or its name title-cased.
pub open spec fn layer_label(name: Seq<char>, label: Option<Seq<char>>) -> Seq<char> {
    match label {
        Some(l) => l,
        None => derived_label(name),
    }
}

/// The overlay model, keyed by layer name (a later definition of a name wins).
pub open spec fn overlay_map(
    table: Map<Seq<char>, Seq<char>>,
    names: Set<Seq<char>>,
    groups: Seq<(Seq<char>, Seq<Seq<char>>)>,
    layers: Seq<LayerModel>,
) -> Map<Seq<char>, LayoutModel>
    decreases layers.len(),
{
    if layers.len() == 0 {
        Map::empty()
    } else {
        let (name, label, buttons) = layers.last();
        overlay_map(table, names, groups, layers.drop_last()).insert(
            name,
            LayoutModel {
                label: layer_label(name, label),
                groups: organized(groups, typeable_upto(table, 12), button_glyphs(table, names, buttons)),
            },
        )
    }
}

/// The typed character per (layer, logical key) (a later definition of a name wins).
pub open spec fn typing_map(
    table: Map<Seq<char>, Seq<char>>,
    names: Set<Seq<char>>,
    layers: Seq<LayerModel>,
) -> Map<Seq<char>, Map<Seq<char>, char>>
    decreases layers.len(),
{
    if layers.len() == 0 {
        Map::empty()
    } else {
        let (name, _label, buttons) = layers.last();
        typing_map(table, names, layers.drop_last()).insert(
            name,
            typed_chars(button_glyphs(table, names, buttons)),
        )
    }
}

/// The `layer_order` entries that name a defined layer, in order.
pub open spec fn usable_ring(order: Seq<Seq<char>>, layers: Set<Seq<char>>) -> Seq<Seq<char>>
    decreases order.len(),
{
    if order.len() == 0 {
        Seq::empty()
    } else {
        let prev = usable_ring(order.drop_last(), layers);
        if layers.contains(order.last()) {
            prev.push(order.last())
        } else {
            prev
        }
    }
}

/// The fully-resolved configuration as character sequences and maps.
pub struct ConfigModel {
    pub layer_order: Seq<Seq<char>>,
    pub nav_prev: Seq<char>,
    pub nav_next: Seq<char>,
    pub phys_to_logical: Map<Seq<char>, Seq<char>>,
    pub overlay: Map<Seq<char>, LayoutModel>,
    pub typing: Map<Seq<char>, Map<Seq<char>, char>>,
}

/// Why a layers config is refused.
pub enum LayersFault {
    NavNotFunctionKey { next: bool, key: Seq<char> },
    NavKeysEqual { key: Seq<char> },
    NavKeyAliased { key: Seq<char>, alias: Seq<char> },
    NoUsableLayers,
}

/// A navigation key as configured: the given value, or the default.
pub open spec fn nav_key(v: Option<Seq<char>>, default: Seq<char>) -> Seq<char> {
    match v {
        Some(x) => x,
        None => default,
    }
}

/// The config with every name in canonical (uppercase) form, which is how references
/// are matched case-insensitively: the `[keys]` entries, the navigation keys (defaults
/// filled in), the group keys and the button keys. Layer names, labels, the ring and
/// the glyphs are kept as written.
pub open spec fn canonical(raw: RawModel) -> RawModel {
    RawModel {
        keys: raw.keys.map_values(|e: (Seq<char>, Seq<char>)| (uppercase(e.0), uppercase(e.1))),
        prev: Some(uppercase(nav_key(raw.prev, fkey_name(3)))),
        next: Some(uppercase(nav_key(raw.next, fkey_name(5)))),
        layer_order: raw.layer_order,
        groups: raw.groups.map_values(
            |g: (Seq<char>, Seq<Seq<char>>)| (g.0, g.1.map_values(|k: Seq<char>| uppercase(k))),
        ),
        layers: raw.layers.map_values(
            |l: LayerModel| (l.0, l.1, l.2.map_values(|b: (Seq<char>, Seq<char>)| (uppercase(b.0), b.1))),
        ),
    }
}

/// What loading a layers config yields, its names taken as given (see [`canonical`]
/// for the case-insensitive reading).
pub open spec fn layers_outcome(raw: RawModel) -> Result<ConfigModel, LayersFault> {
    let table = alias_table(raw.keys);
    let names = logical_names(raw.keys);
    let prev = nav_key(raw.prev, fkey_name(3));
    let next = nav_key(raw.next, fkey_name(5));
    let groups = resolved_groups(table, names, raw.groups);
    let overlay = overlay_map(table, names, groups, raw.layers);
    let ring = usable_ring(raw.layer_order, overlay.dom());
    if !is_fkey(prev) {
        Err(LayersFault::NavNotFunctionKey { next: false, key: prev })
    } else if !is_fkey(next) {
        Err(LayersFault::NavNotFunctionKey { next: true, key: next })
    } else if prev == next {
        Err(LayersFault::NavKeysEqual { key: prev })
    } else if table.contains_key(prev) {
        Err(LayersFault::NavKeyAliased { key: prev, alias: table[prev] })
    } else if table.contains_key(next) {
        Err(LayersFault::NavKeyAliased { key: next, alias: table[next] })
    } else if ring.len() == 0 {
        Err(LayersFault::NoUsableLayers)
    } else {
        Ok(ConfigModel {
            layer_order: ring,
            nav_prev: prev,
            nav_next: next,
            phys_to_logical: table,
            overlay,
            typing: typing_map(table, names, raw.layers),
        })
    }
}

/// Which navigation field a refused key came from.
#[derive(Debug, Clone, Copy, PartialEq, Eq, Structural)]
pub enum NavField {
    Prev,
    Next,
}

/// Why a layers config is refused.
#[derive(Debug, Clone)]
pub enum LayersError {
    /// `navigation.prev`/`navigation.next` is not a function key F13–F24.
    NavNotFunctionKey { field: NavField, key: String },
    /// `navigation.prev` and `navigation.next` are the same key.
    NavKeysEqual { key: String },
    /// A navigation key is also aliased in `[keys]`.
    NavKeyAliased { key: String, alias: String },
    /// `layer_order` names no defined layer.
    NoUsableLayers,
}

impl View for LayersError {
    type V = LayersFault;

    open spec fn view(&self) -> LayersFault {
        match self {
            LayersError::NavNotFunctionKey { field, key } => LayersFault::NavNotFunctionKey {
                next: *field == NavField::Next,
                key: key@,
            },
            LayersError::NavKeysEqual { key } => LayersFault::NavKeysEqual { key: key@ },
            LayersError::NavKeyAliased { key, alias } => LayersFault::NavKeyAliased { key: key@, alias: alias@ },
            LayersError::NoUsableLayers => LayersFault::NoUsableLayers,
        }
    }
}

/// Fully-resolved layer configuration. All key identifiers are logical names; the only
/// physical-key structure is `phys_to_logical` (the grab-thread translation table).
#[derive(Debug, Clone)]
pub struct LayersConfig {
    /// Layer names in navigation order. `nav_prev` selects previous, `nav_next` next (wrapping).
    pub layer_order: Vec<String>,
    /// Physical function key (e.g. "F16") that navigates to the previous layer. Raw F-key,
    /// disjoint from `[keys]`; lives at the grab boundary alongside `phys_to_logical`.
    pub nav_prev: String,
    /// Physical function key (e.g. "F18") that navigates to the next layer.
    pub nav_next: String,
    /// Physical function key -> logical name. The grab thread's sole F-key reference.
    pub phys_to_logical: KeyMap<String>,
    /// Overlay model, keyed by layer name. Buttons are pre-grouped in render order.
    pub overlay: KeyMap<LayoutInfo>,
    /// Typed character per (layer name, logical key name).
    pub typing: KeyMap<KeyMap<char>>,
}

impl View for LayersConfig {
    type V = ConfigModel;

    open spec fn view(&self) -> ConfigModel {
        ConfigModel {
            layer_order: strs(self.layer_order@),
            nav_prev: self.nav_prev@,
            nav_next: self.nav_next@,
            phys_to_logical: self.phys_to_logical.view().map_values(|s: String| s@),
            overlay: self.overlay.view().map_values(|l: LayoutInfo| l@),
            typing: self.typing.view().map_values(|m: KeyMap<char>| m.view()),
        }
    }
}

/// The string table as a map of character sequences.
pub open spec fn table_view(m: Map<Seq<char>, String>) -> Map<Seq<char>, Seq<char>> {
    m.map_values(|s: String| s@)
}

/// Resolve a config reference (a logical name, or a physical F-key that has an alias)
/// to its logical name. Physical F-keys without an alias do not resolve.
fn resolve_name(table: &KeyMap<String>, names: &Vec<String>, name: &str) -> (r: Option<String>)
    ensures
        crate::config::opt_view(r) == resolve(table_view(table.view()), str_set(names@), name@),
{
    if contains_str(names, name) {
        Some(String::from_str(name))
    } else {
        match table.get(name) {
            Some(l) => Some(l.clone()),
            None => None,
        }
    }
}

/// Builds the physical -> logical table and the set of logical names from `[keys]`.
fn alias_tables(keys: &Vec<(String, String)>) -> (r: (KeyMap<String>, Vec<String>))
    ensures
        table_view(r.0.view()) == alias_table(pairs(keys@)),
        str_set(r.1@) == logical_names(pairs(keys@)),
{
    let ghost ks = pairs(keys@);
    let mut table: KeyMap<String> = KeyMap::new();
    let mut names: Vec<String> = Vec::new();
    let mut i: usize = 0;
    assert(table_view(table.view()) =~= alias_table(ks.take(0)));
    assert(str_set(names@) =~= logical_names(ks.take(0)));
    while i < keys.len()
        invariant
            ks == pairs(keys@),
            i <= keys@.len(),
            table_view(table.view()) == alias_table(ks.take(i as int)),
            str_set(names@) == logical_names(ks.take(i as int)),
        decreases keys@.len() - i,
    {
        let phys = &keys[i].0;
        let alias = &keys[i].1;
        assert(ks.take(i + 1).drop_last() =~= ks.take(i as int));
        assert(ks.take(i + 1).last() == (phys@, alias@));
        let phys_u = phys.clone();
        if is_function_key(phys_u.as_str()) {
            let alias_u = alias.clone();
            let ghost before_t = table.view();
            let ghost before_n = names@;
            names.push(alias_u.clone());
            assert(str_set(names@) =~= str_set(before_n).insert(alias_u@)) by {
                assert(names@[names@.len() - 1]@ == alias_u@);
                assert forall|q: Seq<char>| str_set(names@).contains(q) == str_set(before_n).insert(alias_u@).contains(q) by {
                    if str_set(names@).contains(q) {
                        let j = choose|j: int| 0 <= j < names@.len() && #[trigger] names@[j]@ == q;
                        if j < before_n.len() {
                            assert(before_n[j]@ == q);
                        }
                    }
                    if str_set(before_n).contains(q) {
                        let j = choose|j: int| 0 <= j < before_n.len() && #[trigger] before_n[j]@ == q;
                        assert(names@[j]@ == q);
                    }
                }
            }
            let ghost pk = phys_u@;
            let ghost av = alias_u@;
            table.insert(phys_u, alias_u);
            assert(table_view(table.view()) =~= table_view(before_t).insert(pk, av));
        }
        i += 1;
    }
    assert(ks.take(keys@.len() as int) =~= ks);
    (table, names)
}

/// Resolves every group's keys to logical names, dropping references that do not resolve.
fn resolve_groups(
    table: &KeyMap<String>,
    names: &Vec<String>,
    groups: &Vec<GroupDef>,
) -> (r: Vec<(String, Vec<String>)>)
    ensures
        groups_view(r@) == resolved_groups(
            table_view(table.view()),
            str_set(names@),
            groups@.map_values(|g: GroupDef| (g.label@, strs(g.keys@))),
        ),
{
    let ghost t = table_view(table.view());
    let ghost ns = str_set(names@);
    let ghost gs = groups@.map_values(|g: GroupDef| (g.label@, strs(g.keys@)));
    let mut out: Vec<(String, Vec<String>)> = Vec::new();
    let mut gi: usize = 0;
    while gi < groups.len()
        invariant
            t == table_view(table.view()),
            ns == str_set(names@),
            gs == groups@.map_values(|g: GroupDef| (g.label@, strs(g.keys@))),
            gi <= groups@.len(),
            groups_view(out@) == resolved_groups(t, ns, gs).take(gi as int),
        decreases groups@.len() - gi,
    {
        let g = &groups[gi];
        let ghost ks = strs(g.keys@);
        let mut keys: Vec<String> = Vec::new();
        let mut k: usize = 0;
        assert(strs(keys@) =~= resolve_keys(t, ns, ks.take(0)));
        while k < g.keys.len()
            invariant
                t == table_view(table.view()),
                ns == str_set(names@),
                ks == strs(g.keys@),
                k <= g.keys@.len(),
                strs(keys@) == resolve_keys(t, ns, ks.take(k as int)),
            decreases g.keys@.len() - k,
        {
            assert(ks.take(k + 1).drop_last() =~= ks.take(k as int));
            assert(ks.take(k + 1).last() == g.keys@[k as int]@);
            let ghost before = strs(keys@);
            match resolve_name(table, names, g.keys[k].as_str()) {
                Some(l) => {
                    keys.push(l);
                    assert(strs(keys@) =~= before.push(keys@[keys@.len() - 1]@));
                },
                None => {},
            }
            k += 1;
        }
        assert(ks.take(g.keys@.len() as int) =~= ks);
        let ghost before_out = groups_view(out@);
        out.push((g.label.clone(), keys));
        assert(groups_view(out@) =~= resolved_groups(t, ns, gs).take(gi + 1)) by {
            assert(gs[gi as int] == (g.label@, ks));
            assert(groups_view(out@) =~= before_out.push((g.label@, strs(keys@))));
        }
        gi += 1;
    }
    assert(resolved_groups(t, ns, gs).take(groups@.len() as int) =~= resolved_groups(t, ns, gs));
    out
}

/// Logical names of typeable keys in canonical (physical) order.
fn typeable_order(table: &KeyMap<String>) -> (r: Vec<String>)
    ensures
        strs(r@) == typeable_upto(table_view(table.view()), 12),
{
    let ghost t = table_view(table.view());
    let mut out: Vec<String> = Vec::new();
    let mut i: usize = 0;
    assert(strs(out@) =~= typeable_upto(t, 0));
    while i < FKEY_COUNT
        invariant
            t == table_view(table.view()),
            i <= 12,
            strs(out@) == typeable_upto(t, i as nat),
        decreases 12 - i,
    {
        let ghost before = strs(out@);
        match table.get(fkey(i)) {
            Some(l) => {
                out.push(l.clone());
                assert(strs(out@) =~= before.push(l@));
            },
            None => {},
        }
        i += 1;
    }
    out
}

/// One layer's bindings resolved: logical name -> glyph and logical name -> typed character.
fn layer_bindings(
    table: &KeyMap<String>,
    names: &Vec<String>,
    buttons: &Vec<(String, String)>,
) -> (r: (KeyMap<String>, KeyMap<char>))
    ensures
        glyph_view(r.0.view()) == button_glyphs(table_view(table.view()), str_set(names@), pairs(buttons@)),
        r.1.view() == typed_chars(button_glyphs(table_view(table.view()), str_set(names@), pairs(buttons@))),
{
    let ghost t = table_view(table.view());
    let ghost ns = str_set(names@);
    let ghost bs = pairs(buttons@);
    let mut key_to_glyph: KeyMap<String> = KeyMap::new();
    let mut key_to_char: KeyMap<char> = KeyMap::new();
    let mut i: usize = 0;
    assert(glyph_view(key_to_glyph.view()) =~= button_glyphs(t, ns, bs.take(0)));
    assert(key_to_char.view() =~= typed_chars(button_glyphs(t, ns, bs.take(0))));
    while i < buttons.len()
        invariant
            t == table_view(table.view()),
            ns == str_set(names@),
            bs == pairs(buttons@),
            i <= buttons@.len(),
            glyph_view(key_to_glyph.view()) == button_glyphs(t, ns, bs.take(i as int)),
            key_to_char.view() == typed_chars(button_glyphs(t, ns, bs.take(i as int))),
        decreases buttons@.len() - i,
    {
        let raw_key = &buttons[i].0;
        let glyph = &buttons[i].1;
        assert(bs.take(i + 1).drop_last() =~= bs.take(i as int));
        assert(bs.take(i + 1).last() == (raw_key@, glyph@));
        match resolve_name(table, names, raw_key.as_str()) {
            Some(logical) => {
                match first_char_of(glyph.as_str()) {
                    Some(ch) => {
                        let ghost g0 = key_to_glyph.view();
                        let ghost c0 = key_to_char.view();
                        let ghost lv = logical@;
                        key_to_char.insert(logical.clone(), ch);
                        key_to_glyph.insert(logical, glyph.clone());
                        assert(glyph_view(key_to_glyph.view()) =~= glyph_view(g0).insert(lv, glyph@));
                        assert(key_to_char.view() =~= typed_chars(glyph_view(g0).insert(lv, glyph@)));
                    },
                    None => {},
                }
            },
            None => {},
        }
        i += 1;
    }
    assert(bs.take(buttons@.len() as int) =~= bs);
    (key_to_glyph, key_to_char)
}

/// The layer definitions as character sequences.
pub open spec fn layers_view(layers: Seq<(String, LayerDef)>) -> Seq<LayerModel> {
    layers.map_values(|l: (String, LayerDef)| (l.0@, crate::config::opt_view(l.1.label), pairs(l.1.buttons@)))
}

/// Builds the overlay model and the typing table of every layer.
fn build_layers(
    table: &KeyMap<String>,
    names: &Vec<String>,
    groups: &Vec<(String, Vec<String>)>,
    order: &Vec<String>,
    layers: &Vec<(String, LayerDef)>,
) -> (r: (KeyMap<LayoutInfo>, KeyMap<KeyMap<char>>))
    requires
        strs(order@) == typeable_upto(table_view(table.view()), 12),
    ensures
        r.0.view().map_values(|l: LayoutInfo| l@)
            == overlay_map(table_view(table.view()), str_set(names@), groups_view(groups@), layers_view(layers@)),
        r.1.view().map_values(|m: KeyMap<char>| m.view())
            == typing_map(table_view(table.view()), str_set(names@), layers_view(layers@)),
{
    let ghost t = table_view(table.view());
    let ghost ns = str_set(names@);
    let ghost gs = groups_view(groups@);
    let ghost ls = layers_view(layers@);
    let mut overlay: KeyMap<LayoutInfo> = KeyMap::new();
    let mut typing: KeyMap<KeyMap<char>> = KeyMap::new();
    let mut i: usize = 0;
    assert(overlay.view().map_values(|l: LayoutInfo| l@) =~= overlay_map(t, ns, gs, ls.take(0)));
    assert(typing.view().map_values(|m: KeyMap<char>| m.view()) =~= typing_map(t, ns, ls.take(0)));
    while i < layers.len()
        invariant
            t == table_view(table.view()),
            ns == str_set(names@),
            gs == groups_view(groups@),
            ls == layers_view(layers@),
            strs(order@) == typeable_upto(t, 12),
            i <= layers@.len(),
            overlay.view().map_values(|l: LayoutInfo| l@) == overlay_map(t, ns, gs, ls.take(i as int)),
            typing.view().map_values(|m: KeyMap<char>| m.view()) == typing_map(t, ns, ls.take(i as int)),
        decreases layers@.len() - i,
    {
        let name = &layers[i].0;
        let layer = &layers[i].1;
        assert(ls.take(i + 1).drop_last() =~= ls.take(i as int));
        assert(ls.take(i + 1).last() == (name@, crate::config::opt_view(layer.label), pairs(layer.buttons@)));
        let label = match &layer.label {
            Some(l) => l.clone(),
            None => derive_label(name.as_str()),
        };
        let (key_to_glyph, key_to_char) = layer_bindings(table, names, &layer.buttons);
        let info = LayoutInfo { label, groups: organize_groups(groups, order, &key_to_glyph) };
        let ghost o0 = overlay.view();
        let ghost t0 = typing.view();
        let ghost iv = info@;
        let ghost cv = key_to_char.view();
        overlay.insert(name.clone(), info);
        typing.insert(name.clone(), key_to_char);
        assert(overlay.view().map_values(|l: LayoutInfo| l@)
            =~= o0.map_values(|l: LayoutInfo| l@).insert(name@, iv));
        assert(typing.view().map_values(|m: KeyMap<char>| m.view())
            =~= t0.map_values(|m: KeyMap<char>| m.view()).insert(name@, cv));
        i += 1;
    }
    assert(ls.take(layers@.len() as int) =~= ls);
    (overlay, typing)
}

/// The `layer_order` entries that name a defined layer, in order.
fn usable_layers(order: &Vec<String>, overlay: &KeyMap<LayoutInfo>) -> (r: Vec<String>)
    ensures
        strs(r@) == usable_ring(strs(order@), overlay.view().dom()),
{
    let ghost os = strs(order@);
    let mut out: Vec<String> = Vec::new();
    let mut i: usize = 0;
    assert(strs(out@) =~= usable_ring(os.take(0), overlay.view().dom()));
    while i < order.len()
        invariant
            os == strs(order@),
            i <= order@.len(),
            strs(out@) == usable_ring(os.take(i as int), overlay.view().dom()),
        decreases order@.len() - i,
    {
        assert(os.take(i + 1).drop_last() =~= os.take(i as int));
        assert(os.take(i + 1).last() == order@[i as int]@);
        let ghost before = strs(out@);
        if overlay.contains_key(order[i].as_str()) {
            out.push(order[i].clone());
            assert(strs(out@) =~= before.push(order@[i as int]@));
        }
        i += 1;
    }
    assert(os.take(order@.len() as int) =~= os);
    out
}

/// Each name uppercased.
fn upper_names(v: &Vec<String>) -> (r: Vec<String>)
    ensures
        strs(r@) == strs(v@).map_values(|k: Seq<char>| uppercase(k)),
{
    let mut out: Vec<String> = Vec::new();
    let mut i: usize = 0;
    while i < v.len()
        invariant
            i <= v@.len(),
            out@.len() == i,
            forall|j: int| 0 <= j < i ==> #[trigger] out@[j]@ == uppercase(v@[j]@),
        decreases v@.len() - i,
    {
        out.push(to_upper(v[i].as_str()));
        i += 1;
    }
    assert(strs(out@) =~= strs(v@).map_values(|k: Seq<char>| uppercase(k)));
    out
}

/// Each `[keys]` entry with both names uppercased.
fn upper_key_pairs(v: &Vec<(String, String)>) -> (r: Vec<(String, String)>)
    ensures
        pairs(r@) == pairs(v@).map_values(|e: (Seq<char>, Seq<char>)| (uppercase(e.0), uppercase(e.1))),
{
    let mut out: Vec<(String, String)> = Vec::new();
    let mut i: usize = 0;
    while i < v.len()
        invariant
            i <= v@.len(),
            out@.len() == i,
            forall|j: int| 0 <= j < i ==> (#[trigger] out@[j]).0@ == uppercase(v@[j].0@) && out@[j].1@ == uppercase(v@[j].1@),
        decreases v@.len() - i,
    {
        out.push((to_upper(v[i].0.as_str()), to_upper(v[i].1.as_str())));
        i += 1;
    }
    assert(pairs(out@) =~= pairs(v@).map_values(|e: (Seq<char>, Seq<char>)| (uppercase(e.0), uppercase(e.1))));
    out
}

/// Each binding with its key uppercased and its glyph kept.
fn upper_button_keys(v: &Vec<(String, String)>) -> (r: Vec<(String, String)>)
    ensures
        pairs(r@) == pairs(v@).map_values(|b: (Seq<char>, Seq<char>)| (uppercase(b.0), b.1)),
{
    let mut out: Vec<(String, String)> = Vec::new();
    let mut i: usize = 0;
    while i < v.len()
        invariant
            i <= v@.len(),
            out@.len() == i,
            forall|j: int| 0 <= j < i ==> (#[trigger] out@[j]).0@ == uppercase(v@[j].0@) && out@[j].1@ == v@[j].1@,
        decreases v@.len() - i,
    {
        out.push((to_upper(v[i].0.as_str()), v[i].1.clone()));
        i += 1;
    }
    assert(pairs(out@) =~= pairs(v@).map_values(|b: (Seq<char>, Seq<char>)| (uppercase(b.0), b.1)));
    out
}

fn copy_opt(o: &Option<String>) -> (r: Option<String>)
    ensures
        crate::config::opt_view(r) == crate::config::opt_view(*o),
{
    match o {
        Some(s) => Some(s.clone()),
        None => None,
    }
}

impl RawConfig {
    /// The config in its [`canonical`] form: every name that references a key is
    /// uppercased (`str::to_uppercase`), and the default navigation keys are filled in.
    pub fn canonical(&self) -> (r: RawConfig)
        ensures
            r@ == canonical(self@),
    {
        let ghost m = self@;
        let ghost c = canonical(self@);
        let keys = upper_key_pairs(&self.keys);
        let prev_src: &str = match &self.navigation.prev {
            Some(p) => p.as_str(),
            None => fkey(3),
        };
        let next_src: &str = match &self.navigation.next {
            Some(p) => p.as_str(),
            None => fkey(5),
        };
        let navigation = NavigationDef { prev: Some(to_upper(prev_src)), next: Some(to_upper(next_src)) };
        let mut layer_order: Vec<String> = Vec::new();
        let mut i: usize = 0;
        while i < self.layer_order.len()
            invariant
                i <= self.layer_order@.len(),
                layer_order@.len() == i,
                forall|j: int| 0 <= j < i ==> #[trigger] layer_order@[j]@ == self.layer_order@[j]@,
            decreases self.layer_order@.len() - i,
        {
            layer_order.push(self.layer_order[i].clone());
            i += 1;
        }
        let mut groups: Vec<GroupDef> = Vec::new();
        let mut gi: usize = 0;
        while gi < self.groups.len()
            invariant
                gi <= self.groups@.len(),
                groups@.len() == gi,
                forall|j: int| 0 <= j < gi ==> (#[trigger] groups@[j]).label@ == self.groups@[j].label@
                    && strs(groups@[j].keys@) == strs(self.groups@[j].keys@).map_values(|k: Seq<char>| uppercase(k)),
            decreases self.groups@.len() - gi,
        {
            let g = &self.groups[gi];
            groups.push(GroupDef { label: g.label.clone(), keys: upper_names(&g.keys) });
            gi += 1;
        }
        let mut layers: Vec<(String, LayerDef)> = Vec::new();
        let mut li: usize = 0;
        while li < self.layers.len()
            invariant
                li <= self.layers@.len(),
                layers@.len() == li,
                forall|j: int| 0 <= j < li ==> (#[trigger] layers@[j]).0@ == self.layers@[j].0@
                    && crate::config::opt_view(layers@[j].1.label) == crate::config::opt_view(self.layers@[j].1.label)
                    && pairs(layers@[j].1.buttons@)
                        == pairs(self.layers@[j].1.buttons@).map_values(|b: (Seq<char>, Seq<char>)| (uppercase(b.0), b.1)),
            decreases self.layers@.len() - li,
        {
            let (name, def) = (&self.layers[li].0, &self.layers[li].1);
            layers.push((name.clone(), LayerDef { label: copy_opt(&def.label), buttons: upper_button_keys(&def.buttons) }));
            li += 1;
        }
        let r = RawConfig { keys, navigation, layer_order, groups, layers };
        proof {
            assert(r@.keys == c.keys);
            assert(r@.layer_order =~= c.layer_order);
            assert(r@.groups =~= c.groups) by {
                assert forall|j: int| 0 <= j < r@.groups.len() implies #[trigger] r@.groups[j] == c.groups[j] by {
                    assert(r@.groups[j] == (groups@[j].label@, strs(groups@[j].keys@)));
                }
            }
            assert(r@.layers =~= c.layers) by {
                assert forall|j: int| 0 <= j < r@.layers.len() implies #[trigger] r@.layers[j] == c.layers[j] by {
                    assert(r@.layers[j] == (layers@[j].0@, crate::config::opt_view(layers@[j].1.label), pairs(layers@[j].1.buttons@)));
                }
            }
        }
        r
    }
}

impl LayersConfig {
    /// Resolves a raw `layers.toml` into the layer ring, the navigation keys, the
    /// physical -> logical table, the overlay model and the typing table, or says why
    /// the config is refused. Names are matched case-insensitively: the config is read
    /// in its [`canonical`] form.
    pub fn from_raw(raw: &RawConfig) -> (r: Result<LayersConfig, LayersError>)
        ensures
            match r {
                Ok(cfg) => layers_outcome(canonical(raw@)) == Ok::<ConfigModel, LayersFault>(cfg@),
                Err(e) => layers_outcome(canonical(raw@)) == Err::<ConfigModel, LayersFault>(e@),
            },
    {
        let c = raw.canonical();
        Self::from_canonical(&c)
    }

    /// Resolves a config whose names are taken as given (see [`layers_outcome`]).
    pub fn from_canonical(raw: &RawConfig) -> (r: Result<LayersConfig, LayersError>)
        ensures
            match r {
                Ok(cfg) => layers_outcome(raw@) == Ok::<ConfigModel, LayersFault>(cfg@),
                Err(e) => layers_outcome(raw@) == Err::<ConfigModel, LayersFault>(e@),
            },
    {
        // Build the physical->logical translation table from [keys].
        let (phys_to_logical, logical_set) = alias_tables(&raw.keys);
        let ghost t = table_view(phys_to_logical.view());
        let ghost ns = str_set(logical_set@);

        // [navigation] uses raw function-key codes — the prev/next role is itself a hard
        // mapping, so navigation keys are not aliased. Default to the macropad knob (F16/F18).
        let prev_src: &str = match &raw.navigation.prev {
            Some(p) => p.as_str(),
            None => fkey(3),
        };
        let nav_prev = String::from_str(prev_src);
        if !is_function_key(nav_prev.as_str()) {
            return Err(LayersError::NavNotFunctionKey { field: NavField::Prev, key: nav_prev });
        }
        let next_src: &str = match &raw.navigation.next {
            Some(p) => p.as_str(),
            None => fkey(5),
        };
        let nav_next = String::from_str(next_src);
        if !is_function_key(nav_next.as_str()) {
            return Err(LayersError::NavNotFunctionKey { field: NavField::Next, key: nav_next });
        }
        if str_eq(nav_prev.as_str(), nav_next.as_str()) {
            return Err(LayersError::NavKeysEqual { key: nav_prev });
        }
        // A key may not be both a navigation key and an aliased typeable key.
        match phys_to_logical.get(nav_prev.as_str()) {
            Some(alias) => {
                return Err(LayersError::NavKeyAliased { key: nav_prev, alias: alias.clone() });
            },
            None => {},
        }
        match phys_to_logical.get(nav_next.as_str()) {
            Some(alias) => {
                return Err(LayersError::NavKeyAliased { key: nav_next, alias: alias.clone() });
            },
            None => {},
        }

        // Logical names of typeable keys, in canonical (physical) order, for the
        // anonymous group rendering.
        let order = typeable_order(&phys_to_logical);
        // Pre-resolve global groups to logical names, preserving order.
        let groups = resolve_groups(&phys_to_logical, &logical_set, &raw.groups);
        let (overlay, typing) = build_layers(&phys_to_logical, &logical_set, &groups, &order, &raw.layers);
        // Drop unknown layer-order entries.
        let layer_order = usable_layers(&raw.layer_order, &overlay);
        if layer_order.len() == 0 {
            proof {
                assert(overlay.view().dom() =~= overlay.view().map_values(|l: LayoutInfo| l@).dom());
            }
            return Err(LayersError::NoUsableLayers);
        }
        proof {
            assert(overlay.view().dom() =~= overlay.view().map_values(|l: LayoutInfo| l@).dom());
        }
        Ok(LayersConfig { layer_order, nav_prev, nav_next, phys_to_logical, overlay, typing })
    }

    /// Character typed for logical key `key` in `layer` (the key is matched
    /// case-insensitively, as its uppercase).
    pub fn glyph_for(&self, layer: &str, key: &str) -> (r: Option<char>)
        ensures
            r == (if self@.typing.contains_key(layer@) && self@.typing[layer@].contains_key(uppercase(key@)) {
                Some(self@.typing[layer@][uppercase(key@)])
            } else {
                None::<char>
            }),
    {
        match self.typing.get(layer) {
            Some(m) => {
                let u = to_upper(key);
                match m.get(u.as_str()) {
                    Some(c) => Some(*c),
                    None => None,
                }
            },
            None => None,
        }
    }
}

proof fn lemma_alias_table(keys: Seq<(Seq<char>, Seq<char>)>)
    ensures
        forall|p: Seq<char>| #[trigger] alias_table(keys).contains_key(p) ==> is_fkey(p)
            && logical_names(keys).contains(alias_table(keys)[p]),
    decreases keys.len(),
{
    if keys.len() > 0 {
        let prev = keys.drop_last();
        lemma_alias_table(prev);
        let pu = keys.last().0;
        assert forall|p: Seq<char>| #[trigger] alias_table(keys).contains_key(p) implies is_fkey(p)
            && logical_names(keys).contains(alias_table(keys)[p]) by {
            if is_fkey(pu) && p == pu {
            } else {
                assert(alias_table(prev).contains_key(p));
            }
        }
    }
}

proof fn lemma_resolve_is_logical(t: Map<Seq<char>, Seq<char>>, ns: Set<Seq<char>>, name: Seq<char>)
    requires
        forall|p: Seq<char>| #[trigger] t.contains_key(p) ==> ns.contains(t[p]),
    ensures
        resolve(t, ns, name) matches Some(l) ==> ns.contains(l),
{
}

proof fn lemma_button_glyphs(t: Map<Seq<char>, Seq<char>>, ns: Set<Seq<char>>, buttons: Seq<(Seq<char>, Seq<char>)>)
    requires
        forall|p: Seq<char>| #[trigger] t.contains_key(p) ==> ns.contains(t[p]),
    ensures
        forall|k: Seq<char>| #[trigger] button_glyphs(t, ns, buttons).contains_key(k) ==> ns.contains(k)
            && button_glyphs(t, ns, buttons)[k].len() > 0,
    decreases buttons.len(),
{
    if buttons.len() > 0 {
        let prev = buttons.drop_last();
        lemma_button_glyphs(t, ns, prev);
        lemma_resolve_is_logical(t, ns, buttons.last().0);
        assert forall|k: Seq<char>| #[trigger] button_glyphs(t, ns, buttons).contains_key(k) implies ns.contains(k)
            && button_glyphs(t, ns, buttons)[k].len() > 0 by {
            match resolve(t, ns, buttons.last().0) {
                Some(l) => {
                    if buttons.last().1.len() > 0 && k == l {
                    } else {
                        assert(button_glyphs(t, ns, prev).contains_key(k));
                    }
                },
                None => {
                    assert(button_glyphs(t, ns, prev).contains_key(k));
                },
            }
        }
    }
}

proof fn lemma_layer_maps(
    t: Map<Seq<char>, Seq<char>>,
    ns: Set<Seq<char>>,
    gs: Seq<(Seq<char>, Seq<Seq<char>>)>,
    layers: Seq<LayerModel>,
)
    requires
        forall|p: Seq<char>| #[trigger] t.contains_key(p) ==> ns.contains(t[p]),
    ensures
        overlay_map(t, ns, gs, layers).dom() == typing_map(t, ns, layers).dom(),
        forall|l: Seq<char>, k: Seq<char>| #[trigger] typing_map(t, ns, layers).contains_key(l)
            && #[trigger] typing_map(t, ns, layers)[l].contains_key(k) ==> ns.contains(k),
    decreases layers.len(),
{
    if layers.len() > 0 {
        lemma_layer_maps(t, ns, gs, layers.drop_last());
        lemma_button_glyphs(t, ns, layers.last().2);
        assert(overlay_map(t, ns, gs, layers).dom() =~= typing_map(t, ns, layers).dom());
    }
}

proof fn lemma_usable_ring(order: Seq<Seq<char>>, known: Set<Seq<char>>)
    ensures
        forall|i: int| 0 <= i < usable_ring(order, known).len() ==> known.contains(#[trigger] usable_ring(order, known)[i]),
    decreases order.len(),
{
    if order.len() > 0 {
        let prev = order.drop_last();
        lemma_usable_ring(prev, known);
        assert forall|i: int| 0 <= i < usable_ring(order, known).len() implies known.contains(#[trigger] usable_ring(order, known)[i]) by {
            if i < usable_ring(prev, known).len() {
                assert(usable_ring(order, known)[i] == usable_ring(prev, known)[i]);
            }
        }
    }
}

/// A problem in `layers.toml` that does not refuse it: the entry is skipped or cut
/// short, and the daemon reports it. Names are quoted as written in the file.
#[derive(Debug, Clone, PartialEq, Eq)]
pub enum LayersWarning {
    /// A `[keys]` entry whose key is not a function key F13–F24; ignored.
    NotFunctionKey { key: String },
    /// A logical name assigned to more than one key; the last assignment is used.
    DuplicateLogical { alias: String },
    /// A group lists a key that is neither a logical name nor an aliased key; ignored.
    UnknownGroupKey { group: String, key: String },
    /// A layer binds a key that is neither a logical name nor an aliased key; ignored.
    UnknownButtonKey { layer: String, key: String },
    /// A layer binds a key to an empty glyph; ignored.
    EmptyGlyph { layer: String, key: String },
    /// A glyph of more than one character; its first character is typed.
    ExtraGlyphChars { glyph: String },
    /// A `layer_order` entry naming no defined layer; skipped.
    UnknownLayerInOrder { name: String },
    /// A defined layer that `layer_order` does not list; it cannot be reached.
    UnreachableLayer { name: String },
}

/// A warning as character sequences.
pub enum WarningModel {
    NotFunctionKey(Seq<char>),
    DuplicateLogical(Seq<char>),
    UnknownGroupKey(Seq<char>, Seq<char>),
    UnknownButtonKey(Seq<char>, Seq<char>),
    EmptyGlyph(Seq<char>, Seq<char>),
    ExtraGlyphChars(Seq<char>),
    UnknownLayerInOrder(Seq<char>),
    UnreachableLayer(Seq<char>),
}

impl View for LayersWarning {
    type V = WarningModel;

    open spec fn view(&self) -> WarningModel {
        match self {
            LayersWarning::NotFunctionKey { key } => WarningModel::NotFunctionKey(key@),
            LayersWarning::DuplicateLogical { alias } => WarningModel::DuplicateLogical(alias@),
            LayersWarning::UnknownGroupKey { group, key } => WarningModel::UnknownGroupKey(group@, key@),
            LayersWarning::UnknownButtonKey { layer, key } => WarningModel::UnknownButtonKey(layer@, key@),
            LayersWarning::EmptyGlyph { layer, key } => WarningModel::EmptyGlyph(layer@, key@),
            LayersWarning::ExtraGlyphChars { glyph } => WarningModel::ExtraGlyphChars(glyph@),
            LayersWarning::UnknownLayerInOrder { name } => WarningModel::UnknownLayerInOrder(name@),
            LayersWarning::UnreachableLayer { name } => WarningModel::UnreachableLayer(name@),
        }
    }
}

/// The warnings as models.
pub open spec fn warnings_view(v: Seq<LayersWarning>) -> Seq<WarningModel> {
    v.map_values(|w: LayersWarning| w@)
}

/// The warning for `[keys]` entry `i`: `raw` as written, `keys` canonical.
pub open spec fn key_warning(raw: Seq<(Seq<char>, Seq<char>)>, keys: Seq<(Seq<char>, Seq<char>)>, i: int) -> Seq<WarningModel> {
    if !is_fkey(keys[i].0) {
        seq![WarningModel::NotFunctionKey(raw[i].0)]
    } else if logical_names(keys.take(i)).contains(keys[i].1) {
        seq![WarningModel::DuplicateLogical(raw[i].1)]
    } else {
        Seq::empty()
    }
}

/// The warnings of the first `n` `[keys]` entries.
pub open spec fn key_warnings(raw: Seq<(Seq<char>, Seq<char>)>, keys: Seq<(Seq<char>, Seq<char>)>, n: int) -> Seq<WarningModel>
    decreases n,
{
    if n <= 0 {
        Seq::empty()
    } else {
        key_warnings(raw, keys, n - 1) + key_warning(raw, keys, n - 1)
    }
}

/// The warnings of the first `n` keys of the group labelled `label`.
pub open spec fn group_key_warnings(
    label: Seq<char>,
    raw: Seq<Seq<char>>,
    keys: Seq<Seq<char>>,
    t: Map<Seq<char>, Seq<char>>,
    ns: Set<Seq<char>>,
    n: int,
) -> Seq<WarningModel>
    decreases n,
{
    if n <= 0 {
        Seq::empty()
    } else {
        group_key_warnings(label, raw, keys, t, ns, n - 1) + (if resolve(t, ns, keys[n - 1]) is None {
            seq![WarningModel::UnknownGroupKey(label, raw[n - 1])]
        } else {
            Seq::empty()
        })
    }
}

/// The warnings of the first `n` groups.
pub open spec fn group_warnings(
    raw: Seq<(Seq<char>, Seq<Seq<char>>)>,
    groups: Seq<(Seq<char>, Seq<Seq<char>>)>,
    t: Map<Seq<char>, Seq<char>>,
    ns: Set<Seq<char>>,
    n: int,
) -> Seq<WarningModel>
    decreases n,
{
    if n <= 0 {
        Seq::empty()
    } else {
        group_warnings(raw, groups, t, ns, n - 1)
            + group_key_warnings(raw[n - 1].0, raw[n - 1].1, groups[n - 1].1, t, ns, groups[n - 1].1.len() as int)
    }
}

/// The warning for one binding of layer `layer`: `raw` as written, `key` canonical.
pub open spec fn button_warning(
    layer: Seq<char>,
    raw: (Seq<char>, Seq<char>),
    key: Seq<char>,
    t: Map<Seq<char>, Seq<char>>,
    ns: Set<Seq<char>>,
) -> Seq<WarningModel> {
    if resolve(t, ns, key) is None {
        seq![WarningModel::UnknownButtonKey(layer, raw.0)]
    } else if raw.1.len() == 0 {
        seq![WarningModel::EmptyGlyph(layer, raw.0)]
    } else if raw.1.len() > 1 {
        seq![WarningModel::ExtraGlyphChars(raw.1)]
    } else {
        Seq::empty()
    }
}

/// The warnings of the first `n` bindings of layer `layer`.
pub open spec fn button_warnings(
    layer: Seq<char>,
    raw: Seq<(Seq<char>, Seq<char>)>,
    buttons: Seq<(Seq<char>, Seq<char>)>,
    t: Map<Seq<char>, Seq<char>>,
    ns: Set<Seq<char>>,
    n: int,
) -> Seq<WarningModel>
    decreases n,
{
    if n <= 0 {
        Seq::empty()
    } else {
        button_warnings(layer, raw, buttons, t, ns, n - 1) + button_warning(layer, raw[n - 1], buttons[n - 1].0, t, ns)
    }
}

/// The warnings of the bindings of the first `n` layers.
pub open spec fn layer_warnings(
    raw: Seq<LayerModel>,
    layers: Seq<LayerModel>,
    t: Map<Seq<char>, Seq<char>>,
    ns: Set<Seq<char>>,
    n: int,
) -> Seq<WarningModel>
    decreases n,
{
    if n <= 0 {
        Seq::empty()
    } else {
        layer_warnings(raw, layers, t, ns, n - 1)
            + button_warnings(raw[n - 1].0, raw[n - 1].2, layers[n - 1].2, t, ns, layers[n - 1].2.len() as int)
    }
}

/// Whether some layer is defined under `name`.
pub open spec fn defines(layers: Seq<LayerModel>, name: Seq<char>) -> bool {
    exists|i: int| 0 <= i < layers.len() && #[trigger] layers[i].0 == name
}

/// Whether `layer_order` lists `name`.
pub open spec fn lists(order: Seq<Seq<char>>, name: Seq<char>) -> bool {
    exists|i: int| 0 <= i < order.len() && #[trigger] order[i] == name
}

/// Whether layer `i` is defined again later (the later definition is the one used).
pub open spec fn redefined_later(layers: Seq<LayerModel>, i: int) -> bool {
    exists|j: int| i < j < layers.len() && #[trigger] layers[j].0 == layers[i].0
}

/// The warnings of the first `n` `layer_order` entries.
pub open spec fn order_warnings(order: Seq<Seq<char>>, layers: Seq<LayerModel>, n: int) -> Seq<WarningModel>
    decreases n,
{
    if n <= 0 {
        Seq::empty()
    } else {
        order_warnings(order, layers, n - 1) + (if !defines(layers, order[n - 1]) {
            seq![WarningModel::UnknownLayerInOrder(order[n - 1])]
        } else {
            Seq::empty()
        })
    }
}

/// The warnings for the first `n` layer definitions that the ring cannot reach (each
/// name once, at its last definition).
pub open spec fn unreachable_warnings(layers: Seq<LayerModel>, order: Seq<Seq<char>>, n: int) -> Seq<WarningModel>
    decreases n,
{
    if n <= 0 {
        Seq::empty()
    } else {
        unreachable_warnings(layers, order, n - 1) + (if !lists(order, layers[n - 1].0) && !redefined_later(layers, n - 1) {
            seq![WarningModel::UnreachableLayer(layers[n - 1].0)]
        } else {
            Seq::empty()
        })
    }
}

/// Whether the navigation keys of a (canonical) config pass: two distinct function keys
/// that `[keys]` does not alias. Otherwise the config is refused right there.
pub open spec fn nav_accepted(c: RawModel) -> bool {
    let t = alias_table(c.keys);
    let prev = nav_key(c.prev, fkey_name(3));
    let next = nav_key(c.next, fkey_name(5));
    is_fkey(prev) && is_fkey(next) && prev != next && !t.contains_key(prev) && !t.contains_key(next)
}

/// Whether `c` is `raw` with its names rewritten in place: the same number of `[keys]`
/// entries, groups (and keys in each) and layers (and bindings in each).
pub open spec fn same_shape(raw: RawModel, c: RawModel) -> bool {
    &&& raw.keys.len() == c.keys.len()
    &&& raw.groups.len() == c.groups.len()
    &&& forall|i: int| 0 <= i < raw.groups.len() ==> (#[trigger] raw.groups[i]).1.len() == c.groups[i].1.len()
    &&& raw.layers.len() == c.layers.len()
    &&& forall|i: int| 0 <= i < raw.layers.len() ==> (#[trigger] raw.layers[i]).2.len() == c.layers[i].2.len()
}

/// The warnings reading `raw` (as written) in its form `c` (names canonical) gives, in
/// the order they arise: the `[keys]` entries; then, unless the navigation keys refuse
/// the config, the groups' keys, the layers' bindings, the `layer_order` entries and the
/// unreachable layers.
pub open spec fn warnings_from(raw: RawModel, c: RawModel) -> Seq<WarningModel> {
    let t = alias_table(c.keys);
    let ns = logical_names(c.keys);
    let kw = key_warnings(raw.keys, c.keys, c.keys.len() as int);
    if !nav_accepted(c) {
        kw
    } else {
        kw + group_warnings(raw.groups, c.groups, t, ns, c.groups.len() as int)
            + layer_warnings(raw.layers, c.layers, t, ns, c.layers.len() as int)
            + order_warnings(raw.layer_order, raw.layers, raw.layer_order.len() as int)
            + unreachable_warnings(raw.layers, raw.layer_order, raw.layers.len() as int)
    }
}

/// The warnings of a config as written: see [`warnings_from`] over its [`canonical`] form.
pub open spec fn layers_warnings_of(raw: RawModel) -> Seq<WarningModel> {
    warnings_from(raw, canonical(raw))
}

proof fn lemma_str_set_push(v: Seq<String>, s: String)
    ensures
        str_set(v.push(s)) == str_set(v).insert(s@),
{
    let w = v.push(s);
    assert forall|q: Seq<char>| str_set(w).contains(q) == str_set(v).insert(s@).contains(q) by {
        if str_set(w).contains(q) {
            let j = choose|j: int| 0 <= j < w.len() && #[trigger] w[j]@ == q;
            if j < v.len() {
                assert(v[j]@ == q);
            }
        }
        if str_set(v).contains(q) {
            let j = choose|j: int| 0 <= j < v.len() && #[trigger] v[j]@ == q;
            assert(w[j]@ == q);
        }
        if q == s@ {
            assert(w[v.len() as int]@ == q);
        }
    }
    assert(str_set(w) =~= str_set(v).insert(s@));
}

fn push_warning(out: &mut Vec<LayersWarning>, w: LayersWarning)
    ensures
        warnings_view(final(out)@) == warnings_view(old(out)@).push(w@),
{
    let ghost before = out@;
    out.push(w);
    assert(warnings_view(out@) =~= warnings_view(before).push(w@));
}

fn layer_defined(raw: &RawConfig, name: &str) -> (r: bool)
    ensures
        r == defines(raw@.layers, name@),
{
    let mut i: usize = 0;
    while i < raw.layers.len()
        invariant
            i <= raw.layers@.len(),
            forall|j: int| 0 <= j < i ==> (#[trigger] raw@.layers[j]).0 != name@,
        decreases raw.layers@.len() - i,
    {
        assert(raw@.layers[i as int].0 == raw.layers@[i as int].0@);
        if str_eq(raw.layers[i].0.as_str(), name) {
            return true;
        }
        i += 1;
    }
    false
}

fn order_lists(raw: &RawConfig, name: &str) -> (r: bool)
    ensures
        r == lists(raw@.layer_order, name@),
{
    let mut i: usize = 0;
    while i < raw.layer_order.len()
        invariant
            i <= raw.layer_order@.len(),
            forall|j: int| 0 <= j < i ==> #[trigger] raw@.layer_order[j] != name@,
        decreases raw.layer_order@.len() - i,
    {
        assert(raw@.layer_order[i as int] == raw.layer_order@[i as int]@);
        if str_eq(raw.layer_order[i].as_str(), name) {
            return true;
        }
        i += 1;
    }
    false
}

fn defined_later(raw: &RawConfig, i: usize) -> (r: bool)
    requires
        i < raw.layers@.len(),
    ensures
        r == redefined_later(raw@.layers, i as int),
{
    let name = raw.layers[i].0.as_str();
    assert(raw@.layers[i as int].0 == name@);
    let n = raw.layers.len();
    let mut j: usize = i + 1;
    while j < n
        invariant
            i < j <= raw.layers@.len(),
            n == raw.layers@.len(),
            raw@.layers[i as int].0 == name@,
            forall|k: int| i < k < j ==> (#[trigger] raw@.layers[k]).0 != name@,
        decreases raw.layers@.len() - j,
    {
        assert(raw@.layers[j as int].0 == raw.layers@[j as int].0@);
        if str_eq(raw.layers[j].0.as_str(), name) {
            return true;
        }
        j += 1;
    }
    false
}

/// The warnings of `raw` (as written) read in its form `c` (names canonical), see
/// [`warnings_from`].
pub fn warnings_given(raw: &RawConfig, c: &RawConfig) -> (r: Vec<LayersWarning>)
    requires
        same_shape(raw@, c@),
    ensures
        warnings_view(r@) == warnings_from(raw@, c@),
{
    let ghost rk = raw@.keys;
    let ghost ck = c@.keys;
    let mut out: Vec<LayersWarning> = Vec::new();
    let mut names: Vec<String> = Vec::new();
    let mut i: usize = 0;
    assert(warnings_view(out@) =~= key_warnings(rk, ck, 0));
    assert(str_set(names@) =~= logical_names(ck.take(0)));
    while i < c.keys.len()
        invariant
            rk == raw@.keys,
            ck == c@.keys,
            rk.len() == ck.len(),
            i <= ck.len(),
            warnings_view(out@) == key_warnings(rk, ck, i as int),
            str_set(names@) == logical_names(ck.take(i as int)),
        decreases ck.len() - i,
    {
        assert(ck.take(i + 1).drop_last() =~= ck.take(i as int));
        assert(ck.take(i + 1).last() == ck[i as int]);
        let phys = c.keys[i].0.as_str();
        let alias = &c.keys[i].1;
        assert(ck[i as int] == (phys@, alias@));
        assert(rk[i as int] == (raw.keys@[i as int].0@, raw.keys@[i as int].1@));
        if !is_function_key(phys) {
            push_warning(&mut out, LayersWarning::NotFunctionKey { key: raw.keys[i].0.clone() });
        } else {
            if contains_str(&names, alias.as_str()) {
                push_warning(&mut out, LayersWarning::DuplicateLogical { alias: raw.keys[i].1.clone() });
            }
            let ghost before = names@;
            names.push(alias.clone());
            proof {
                lemma_str_set_push(before, *alias);
            }
        }
        i += 1;
    }
    let ghost kw = warnings_view(out@);
    let (table, lnames) = alias_tables(&c.keys);
    let ghost t = table_view(table.view());
    let ghost ns = str_set(lnames@);
    let prev: &str = match &c.navigation.prev {
        Some(p) => p.as_str(),
        None => fkey(3),
    };
    let next: &str = match &c.navigation.next {
        Some(p) => p.as_str(),
        None => fkey(5),
    };
    assert(table.view().dom() =~= t.dom());
    if !is_function_key(prev) || !is_function_key(next) || str_eq(prev, next) || table.contains_key(prev)
        || table.contains_key(next) {
        return out;
    }
    assert(nav_accepted(c@));

    // groups
    let ghost rg = raw@.groups;
    let ghost cg = c@.groups;
    let mut gi: usize = 0;
    assert(warnings_view(out@) =~= kw + group_warnings(rg, cg, t, ns, 0));
    while gi < c.groups.len()
        invariant
            rg == raw@.groups,
            cg == c@.groups,
            same_shape(raw@, c@),
            t == table_view(table.view()),
            ns == str_set(lnames@),
            gi <= cg.len(),
            warnings_view(out@) == kw + group_warnings(rg, cg, t, ns, gi as int),
        decreases cg.len() - gi,
    {
        let ghost prefix = kw + group_warnings(rg, cg, t, ns, gi as int);
        let rgroup = &raw.groups[gi];
        let cgroup = &c.groups[gi];
        assert(rg[gi as int] == (rgroup.label@, strs(rgroup.keys@)));
        assert(cg[gi as int] == (cgroup.label@, strs(cgroup.keys@)));
        let ghost rks = strs(rgroup.keys@);
        let ghost cks = strs(cgroup.keys@);
        let mut k: usize = 0;
        assert(warnings_view(out@) =~= prefix + group_key_warnings(rgroup.label@, rks, cks, t, ns, 0));
        while k < cgroup.keys.len()
            invariant
                rks == strs(rgroup.keys@),
                cks == strs(cgroup.keys@),
                rks.len() == cks.len(),
                t == table_view(table.view()),
                ns == str_set(lnames@),
                k <= cks.len(),
                warnings_view(out@) == prefix + group_key_warnings(rgroup.label@, rks, cks, t, ns, k as int),
            decreases cks.len() - k,
        {
            let ghost before = warnings_view(out@);
            match resolve_name(&table, &lnames, cgroup.keys[k].as_str()) {
                None => {
                    push_warning(
                        &mut out,
                        LayersWarning::UnknownGroupKey { group: rgroup.label.clone(), key: rgroup.keys[k].clone() },
                    );
                    assert(warnings_view(out@) =~= prefix + group_key_warnings(rgroup.label@, rks, cks, t, ns, k + 1));
                },
                Some(_) => {
                    assert(warnings_view(out@) =~= prefix + group_key_warnings(rgroup.label@, rks, cks, t, ns, k + 1));
                },
            }
            k += 1;
        }
        assert(warnings_view(out@) =~= kw + group_warnings(rg, cg, t, ns, gi + 1));
        gi += 1;
    }
    let ghost gw = warnings_view(out@);

    // layers
    let ghost rl = raw@.layers;
    let ghost cl = c@.layers;
    let mut li: usize = 0;
    assert(warnings_view(out@) =~= gw + layer_warnings(rl, cl, t, ns, 0));
    while li < c.layers.len()
        invariant
            rl == raw@.layers,
            cl == c@.layers,
            same_shape(raw@, c@),
            t == table_view(table.view()),
            ns == str_set(lnames@),
            li <= cl.len(),
            warnings_view(out@) == gw + layer_warnings(rl, cl, t, ns, li as int),
        decreases cl.len() - li,
    {
        let ghost prefix = gw + layer_warnings(rl, cl, t, ns, li as int);
        let rname = &raw.layers[li].0;
        let rbs = &raw.layers[li].1.buttons;
        let cbs = &c.layers[li].1.buttons;
        assert(rl[li as int].0 == rname@);
        assert(rl[li as int].2 == pairs(rbs@));
        assert(cl[li as int].2 == pairs(cbs@));
        let ghost rp = pairs(rbs@);
        let ghost cp = pairs(cbs@);
        let mut b: usize = 0;
        assert(warnings_view(out@) =~= prefix + button_warnings(rname@, rp, cp, t, ns, 0));
        while b < cbs.len()
            invariant
                rp == pairs(rbs@),
                cp == pairs(cbs@),
                rp.len() == cp.len(),
                t == table_view(table.view()),
                ns == str_set(lnames@),
                b <= cp.len(),
                warnings_view(out@) == prefix + button_warnings(rname@, rp, cp, t, ns, b as int),
            decreases cp.len() - b,
        {
            let rkey = &rbs[b].0;
            let glyph = &rbs[b].1;
            assert(rp[b as int] == (rkey@, glyph@));
            assert(cp[b as int].0 == cbs@[b as int].0@);
            match resolve_name(&table, &lnames, cbs[b].0.as_str()) {
                None => {
                    push_warning(&mut out, LayersWarning::UnknownButtonKey { layer: rname.clone(), key: rkey.clone() });
                },
                Some(_) => {
                    let glen = glyph.unicode_len();
                    if glen == 0 {
                        push_warning(&mut out, LayersWarning::EmptyGlyph { layer: rname.clone(), key: rkey.clone() });
                    } else if glen > 1 {
                        push_warning(&mut out, LayersWarning::ExtraGlyphChars { glyph: glyph.clone() });
                    }
                },
            }
            assert(warnings_view(out@) =~= prefix + button_warnings(rname@, rp, cp, t, ns, b + 1));
            b += 1;
        }
        assert(warnings_view(out@) =~= gw + layer_warnings(rl, cl, t, ns, li + 1));
        li += 1;
    }
    let ghost lw = warnings_view(out@);

    // layer_order
    let ghost ro = raw@.layer_order;
    let mut oi: usize = 0;
    assert(warnings_view(out@) =~= lw + order_warnings(ro, rl, 0));
    while oi < raw.layer_order.len()
        invariant
            ro == raw@.layer_order,
            rl == raw@.layers,
            oi <= ro.len(),
            warnings_view(out@) == lw + order_warnings(ro, rl, oi as int),
        decreases ro.len() - oi,
    {
        let name = &raw.layer_order[oi];
        assert(ro[oi as int] == name@);
        if !layer_defined(raw, name.as_str()) {
            push_warning(&mut out, LayersWarning::UnknownLayerInOrder { name: name.clone() });
        }
        assert(warnings_view(out@) =~= lw + order_warnings(ro, rl, oi + 1));
        oi += 1;
    }
    let ghost ow = warnings_view(out@);

    // unreachable layers
    let mut ui: usize = 0;
    assert(warnings_view(out@) =~= ow + unreachable_warnings(rl, ro, 0));
    while ui < raw.layers.len()
        invariant
            ro == raw@.layer_order,
            rl == raw@.layers,
            ui <= rl.len(),
            warnings_view(out@) == ow + unreachable_warnings(rl, ro, ui as int),
        decreases rl.len() - ui,
    {
        let name = &raw.layers[ui].0;
        assert(rl[ui as int].0 == name@);
        if !order_lists(raw, name.as_str()) && !defined_later(raw, ui) {
            push_warning(&mut out, LayersWarning::UnreachableLayer { name: name.clone() });
        }
        assert(warnings_view(out@) =~= ow + unreachable_warnings(rl, ro, ui + 1));
        ui += 1;
    }
    out
}

/// The warnings of a config as written, in the order they arise (see
/// [`layers_warnings_of`]); the daemon reports them when it loads `layers.toml`.
pub fn layers_warnings(raw: &RawConfig) -> (r: Vec<LayersWarning>)
    ensures
        warnings_view(r@) == layers_warnings_of(raw@),
{
    let c = raw.canonical();
    assert(same_shape(raw@, c@));
    warnings_given(raw, &c)
}

/// How many of the first `n` function keys (F13 onwards) `[keys]` aliases.
pub open spec fn aliased_count(table: Map<Seq<char>, Seq<char>>, n: int) -> nat
    decreases n,
{
    if n <= 0 {
        0
    } else {
        aliased_count(table, n - 1) + (if table.contains_key(fkey_name(n - 1)) { 1nat } else { 0nat })
    }
}

proof fn lemma_aliased_count_monotone(table: Map<Seq<char>, Seq<char>>, i: int, j: int)
    requires
        0 <= i <= j,
    ensures
        aliased_count(table, i) <= aliased_count(table, j),
        i < j && table.contains_key(fkey_name(i)) ==> aliased_count(table, i) < aliased_count(table, j),
    decreases j - i,
{
    if i < j {
        lemma_aliased_count_monotone(table, i, j - 1);
        if i == j - 1 {
        }
    }
}

proof fn lemma_typeable_upto(table: Map<Seq<char>, Seq<char>>, n: int)
    requires
        0 <= n <= 12,
    ensures
        typeable_upto(table, n as nat).len() == aliased_count(table, n),
        forall|i: int| 0 <= i < n && table.contains_key(fkey_name(i)) ==>
            #[trigger] typeable_upto(table, n as nat)[aliased_count(table, i) as int] == table[fkey_name(i)],
    decreases n,
{
    if n > 0 {
        lemma_typeable_upto(table, n - 1);
        let prev = typeable_upto(table, (n - 1) as nat);
        assert forall|i: int| 0 <= i < n && table.contains_key(fkey_name(i)) implies
            #[trigger] typeable_upto(table, n as nat)[aliased_count(table, i) as int] == table[fkey_name(i)] by {
            if i < n - 1 {
                lemma_aliased_count_monotone(table, i, n - 1);
                assert(typeable_upto(table, n as nat)[aliased_count(table, i) as int] == prev[aliased_count(table, i) as int]);
            }
        }
    }
}

/// The unlabeled group lists the ungrouped keys in physical order: the typeable-key
/// order holds exactly one logical name per aliased function key, and the logical name
/// of the `i`-th aliased key (F13 first) stands at place `i`; so of two aliased keys the
/// lower-numbered one always comes first.
pub proof fn law_typeable_keys_in_physical_order(table: Map<Seq<char>, Seq<char>>)
    ensures
        typeable_upto(table, 12).len() == aliased_count(table, 12),
        forall|i: int| 0 <= i < 12 && table.contains_key(fkey_name(i)) ==>
            #[trigger] typeable_upto(table, 12)[aliased_count(table, i) as int] == table[fkey_name(i)],
        forall|i: int, j: int| 0 <= i < j < 12 && table.contains_key(fkey_name(i)) ==>
            #[trigger] aliased_count(table, i) < #[trigger] aliased_count(table, j),
{
    lemma_typeable_upto(table, 12);
    assert forall|i: int, j: int| 0 <= i < j < 12 && table.contains_key(fkey_name(i)) implies
        #[trigger] aliased_count(table, i) < #[trigger] aliased_count(table, j) by {
        lemma_aliased_count_monotone(table, i, j);
    }
}

proof fn lemma_named_groups_nonempty(
    groups: Seq<(Seq<char>, Seq<Seq<char>>)>,
    assigned: Set<Seq<char>>,
    glyphs: Map<Seq<char>, Seq<char>>,
)
    ensures
        forall|i: int| 0 <= i < named_groups(groups, assigned, glyphs).len() ==> {
            &&& (#[trigger] named_groups(groups, assigned, glyphs)[i]).buttons.len() > 0
            &&& named_groups(groups, assigned, glyphs)[i].label is Some
        },
    decreases groups.len(),
{
    if groups.len() > 0 {
        let (label, keys) = groups[0];
        let rest_assigned = assigned.union(keys.to_set());
        lemma_named_groups_nonempty(groups.drop_first(), rest_assigned, glyphs);
        let rest = named_groups(groups.drop_first(), rest_assigned, glyphs);
        let all = named_groups(groups, assigned, glyphs);
        assert forall|i: int| 0 <= i < all.len() implies {
            &&& (#[trigger] all[i]).buttons.len() > 0
            &&& all[i].label is Some
        } by {
            if group_legends(keys, assigned, glyphs).len() > 0 {
                if i > 0 {
                    assert(all[i] == rest[i - 1]);
                }
            } else {
                assert(all[i] == rest[i]);
            }
        }
    }
}

/// A layer's overlay shows no empty group: every group has at least one legend, only
/// the first group may be unlabeled, and an unlabeled group is there exactly when some
/// ungrouped typeable key has a glyph in the layer.
pub proof fn law_overlay_groups_are_never_empty(
    groups: Seq<(Seq<char>, Seq<Seq<char>>)>,
    order: Seq<Seq<char>>,
    glyphs: Map<Seq<char>, Seq<char>>,
)
    ensures
        forall|i: int| 0 <= i < organized(groups, order, glyphs).len() ==>
            (#[trigger] organized(groups, order, glyphs)[i]).buttons.len() > 0,
        forall|i: int| 0 < i < organized(groups, order, glyphs).len() ==>
            (#[trigger] organized(groups, order, glyphs)[i]).label is Some,
        (organized(groups, order, glyphs).len() > 0 && organized(groups, order, glyphs)[0].label is None)
            == (anonymous_legends(order, grouped_keys(groups), glyphs).len() > 0),
{
    lemma_named_groups_nonempty(groups, Set::empty(), glyphs);
    let anon = anonymous_legends(order, grouped_keys(groups), glyphs);
    let named = named_groups(groups, Set::empty(), glyphs);
    let all = organized(groups, order, glyphs);
    assert forall|i: int| 0 <= i < all.len() implies (#[trigger] all[i]).buttons.len() > 0 by {
        if anon.len() > 0 {
            if i > 0 {
                assert(all[i] == named[i - 1]);
            }
        } else {
            assert(all[i] == named[i]);
        }
    }
    assert forall|i: int| 0 < i < all.len() implies (#[trigger] all[i]).label is Some by {
        if anon.len() > 0 {
            assert(all[i] == named[i - 1]);
        } else {
            assert(all[i] == named[i]);
        }
    }
    if anon.len() == 0 && all.len() > 0 {
        assert(all[0] == named[0]);
    }
}

/// Whether key `k` gets a legend in the unlabeled group: no group lists it and it has a
/// glyph in the layer.
pub open spec fn ungrouped_with_glyph(k: Seq<char>, grouped: Set<Seq<char>>, glyphs: Map<Seq<char>, Seq<char>>) -> bool {
    !grouped.contains(k) && glyphs.contains_key(k)
}

/// How many of the first `n` keys of `order` get a legend in the unlabeled group.
pub open spec fn ungrouped_count(
    order: Seq<Seq<char>>,
    grouped: Set<Seq<char>>,
    glyphs: Map<Seq<char>, Seq<char>>,
    n: int,
) -> nat
    decreases n,
{
    if n <= 0 {
        0
    } else {
        ungrouped_count(order, grouped, glyphs, n - 1) + (if ungrouped_with_glyph(order[n - 1], grouped, glyphs) {
            1nat
        } else {
            0nat
        })
    }
}

proof fn lemma_ungrouped_count_front(
    order: Seq<Seq<char>>,
    grouped: Set<Seq<char>>,
    glyphs: Map<Seq<char>, Seq<char>>,
    n: int,
)
    requires
        1 <= n <= order.len(),
    ensures
        ungrouped_count(order, grouped, glyphs, n) == (if ungrouped_with_glyph(order[0], grouped, glyphs) { 1nat } else { 0nat })
            + ungrouped_count(order.drop_first(), grouped, glyphs, n - 1),
    decreases n,
{
    let rest = order.drop_first();
    if n > 1 {
        lemma_ungrouped_count_front(order, grouped, glyphs, n - 1);
        assert(rest[n - 2] == order[n - 1]);
        assert(ungrouped_count(order, grouped, glyphs, n) == ungrouped_count(order, grouped, glyphs, n - 1)
            + (if ungrouped_with_glyph(order[n - 1], grouped, glyphs) { 1nat } else { 0nat }));
        assert(ungrouped_count(rest, grouped, glyphs, n - 1) == ungrouped_count(rest, grouped, glyphs, n - 2)
            + (if ungrouped_with_glyph(rest[n - 2], grouped, glyphs) { 1nat } else { 0nat }));
    } else {
        assert(ungrouped_count(order, grouped, glyphs, 0) == 0);
        assert(ungrouped_count(rest, grouped, glyphs, 0) == 0);
        assert(ungrouped_count(order, grouped, glyphs, 1) == ungrouped_count(order, grouped, glyphs, 0)
            + (if ungrouped_with_glyph(order[0], grouped, glyphs) { 1nat } else { 0nat }));
    }
}

proof fn lemma_ungrouped_count_monotone(
    order: Seq<Seq<char>>,
    grouped: Set<Seq<char>>,
    glyphs: Map<Seq<char>, Seq<char>>,
    i: int,
    j: int,
)
    requires
        0 <= i < j,
        i < order.len(),
        ungrouped_with_glyph(order[i], grouped, glyphs),
    ensures
        ungrouped_count(order, grouped, glyphs, i) < ungrouped_count(order, grouped, glyphs, j),
    decreases j - i,
{
    if j > i + 1 {
        lemma_ungrouped_count_monotone(order, grouped, glyphs, i, j - 1);
    }
}

proof fn lemma_anonymous_legends(order: Seq<Seq<char>>, grouped: Set<Seq<char>>, glyphs: Map<Seq<char>, Seq<char>>)
    ensures
        anonymous_legends(order, grouped, glyphs).len() == ungrouped_count(order, grouped, glyphs, order.len() as int),
        forall|i: int| 0 <= i < order.len() && ungrouped_with_glyph(order[i], grouped, glyphs) ==>
            #[trigger] anonymous_legends(order, grouped, glyphs)[ungrouped_count(order, grouped, glyphs, i) as int]
                == glyphs[order[i]],
    decreases order.len(),
{
    if order.len() > 0 {
        let rest = order.drop_first();
        lemma_anonymous_legends(rest, grouped, glyphs);
        lemma_ungrouped_count_front(order, grouped, glyphs, order.len() as int);
        let e0: nat = if ungrouped_with_glyph(order[0], grouped, glyphs) { 1 } else { 0 };
        let a = anonymous_legends(order, grouped, glyphs);
        let ar = anonymous_legends(rest, grouped, glyphs);
        assert forall|i: int| 0 <= i < order.len() && ungrouped_with_glyph(order[i], grouped, glyphs) implies
            #[trigger] a[ungrouped_count(order, grouped, glyphs, i) as int] == glyphs[order[i]] by {
            if i > 0 {
                lemma_ungrouped_count_front(order, grouped, glyphs, i);
                assert(rest[i - 1] == order[i]);
                lemma_ungrouped_count_monotone(rest, grouped, glyphs, i - 1, rest.len() as int);
                let k = ungrouped_count(rest, grouped, glyphs, i - 1) as int;
                assert(k < ar.len());
                assert(a == (if e0 == 1 { seq![glyphs[order[0]]] + ar } else { ar }));
                assert(a[e0 + k] == ar[k]);
                assert(ungrouped_count(order, grouped, glyphs, i) == e0 + ungrouped_count(rest, grouped, glyphs, i - 1));
                assert(a[ungrouped_count(order, grouped, glyphs, i) as int] == ar[ungrouped_count(rest, grouped, glyphs, i - 1) as int]);
            }
        }
    }
}

/// The unlabeled group shows the legend of every ungrouped typeable key that has a
/// glyph, each once, in the typeable-key order: the legend of the `i`-th such key
/// stands at place `i`, so of two such keys the earlier one's legend comes first.
pub proof fn law_unlabeled_group_follows_key_order(
    order: Seq<Seq<char>>,
    grouped: Set<Seq<char>>,
    glyphs: Map<Seq<char>, Seq<char>>,
)
    ensures
        anonymous_legends(order, grouped, glyphs).len() == ungrouped_count(order, grouped, glyphs, order.len() as int),
        forall|i: int| 0 <= i < order.len() && ungrouped_with_glyph(order[i], grouped, glyphs) ==>
            #[trigger] anonymous_legends(order, grouped, glyphs)[ungrouped_count(order, grouped, glyphs, i) as int]
                == glyphs[order[i]],
        forall|i: int, j: int| 0 <= i < j < order.len() && ungrouped_with_glyph(order[i], grouped, glyphs) ==>
            #[trigger] ungrouped_count(order, grouped, glyphs, i) < #[trigger] ungrouped_count(order, grouped, glyphs, j),
{
    lemma_anonymous_legends(order, grouped, glyphs);
    assert forall|i: int, j: int| 0 <= i < j < order.len() && ungrouped_with_glyph(order[i], grouped, glyphs) implies
        #[trigger] ungrouped_count(order, grouped, glyphs, i) < #[trigger] ungrouped_count(order, grouped, glyphs, j) by {
        lemma_ungrouped_count_monotone(order, grouped, glyphs, i, j);
    }
}

/// What a layer binds is what is typed: in an accepted config, the last binding of the
/// last layer definition, when its key resolves to a logical name and its glyph is not
/// empty, makes that layer type the glyph's first character for that logical name.
pub proof fn law_bound_glyph_is_typed(raw: RawModel)
    requires
        layers_outcome(raw) is Ok,
        raw.layers.len() > 0,
        raw.layers.last().2.len() > 0,
        resolve(alias_table(raw.keys), logical_names(raw.keys), raw.layers.last().2.last().0) is Some,
        raw.layers.last().2.last().1.len() > 0,
    ensures
        ({
            let cfg = layers_outcome(raw)->Ok_0;
            let layer = raw.layers.last();
            let binding = layer.2.last();
            let logical = resolve(alias_table(raw.keys), logical_names(raw.keys), binding.0)->Some_0;
            &&& cfg.typing.contains_key(layer.0)
            &&& cfg.typing[layer.0].contains_key(logical)
            &&& cfg.typing[layer.0][logical] == binding.1[0]
        }),
{
    let t = alias_table(raw.keys);
    let ns = logical_names(raw.keys);
    let layer = raw.layers.last();
    let g = button_glyphs(t, ns, layer.2);
    let logical = resolve(t, ns, layer.2.last().0)->Some_0;
    assert(g.contains_key(logical) && g[logical] == layer.2.last().1);
    assert(typing_map(t, ns, raw.layers)[layer.0] == typed_chars(g));
}

/// Every accepted layers config is well formed: the two navigation keys are distinct
/// function keys that `[keys]` does not alias (the two sections partition the
/// keyspace); `[keys]` maps only function keys, each to a logical name; the layer ring
/// is not empty and names only defined layers; every layer has both an overlay entry
/// and a typing table; and every typing table is keyed by logical names only.
pub proof fn law_accepted_config_is_well_formed(raw: RawModel)
    requires
        layers_outcome(raw) is Ok,
    ensures
        ({
            let cfg = layers_outcome(raw)->Ok_0;
            let names = logical_names(raw.keys);
            &&& is_fkey(cfg.nav_prev)
            &&& is_fkey(cfg.nav_next)
            &&& cfg.nav_prev != cfg.nav_next
            &&& !cfg.phys_to_logical.contains_key(cfg.nav_prev)
            &&& !cfg.phys_to_logical.contains_key(cfg.nav_next)
            &&& forall|p: Seq<char>| #[trigger] cfg.phys_to_logical.contains_key(p)
                ==> is_fkey(p) && names.contains(cfg.phys_to_logical[p])
            &&& cfg.layer_order.len() > 0
            &&& forall|i: int| 0 <= i < cfg.layer_order.len() ==> cfg.overlay.contains_key(#[trigger] cfg.layer_order[i])
            &&& cfg.overlay.dom() == cfg.typing.dom()
            &&& forall|l: Seq<char>, k: Seq<char>| #[trigger] cfg.typing.contains_key(l)
                && #[trigger] cfg.typing[l].contains_key(k) ==> names.contains(k)
        }),
{
    let t = alias_table(raw.keys);
    let ns = logical_names(raw.keys);
    lemma_alias_table(raw.keys);
    let gs = resolved_groups(t, ns, raw.groups);
    lemma_layer_maps(t, ns, gs, raw.layers);
    lemma_usable_ring(raw.layer_order, overlay_map(t, ns, gs, raw.layers).dom());
}

} // verus!
