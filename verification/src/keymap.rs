//! Keyboard shortcuts that the user can change.
use vstd::prelude::*;
use vstd::string::*;

use crate::action::Action;
use crate::app::{AppMode, FocusedPanel, InputAction};
use crate::search;
use crate::text;
use crate::keys::{KeyEvent, KeyEventKind};

pub mod binding;
pub mod commands;
pub mod laws;
pub mod registry;
pub mod written;

pub use binding::KeyBinding;
pub use registry::binding_registry;

verus! {

/// The contexts in which a command is reachable, one bit each.
pub const GLOBAL: u32 = 1;
pub const GRAPH: u32 = 2;
pub const FILES: u32 = 4;
pub const DETAIL: u32 = 8;
pub const EDITOR: u32 = 16;
pub const HELP: u32 = 32;
pub const INPUT: u32 = 64;
pub const SEARCH: u32 = 128;
pub const CONFIRM: u32 = 256;
pub const MENU: u32 = 512;
pub const REBASE_PLAN: u32 = 1024;
pub const SETTINGS: u32 = 2048;
pub const PR_THREAD: u32 = 4096;
pub const ISSUE_LIST: u32 = 8192;
pub const ISSUE_DETAIL: u32 = 16384;
pub const ISSUE_LABELS: u32 = 32768;
pub const COMPOSE: u32 = 65536;
pub const CI_CHECKS: u32 = 131072;
pub const BRANCH_FILTER: u32 = 262144;
pub const FILE_DIFF: u32 = 524288;
pub const PALETTE: u32 = 1048576;
/// The three panels.
pub const NORMAL: u32 = 14;
/// Every context.
pub const ALL: u32 = 2097151;

/// One command exposed to configuration and to shortcut hints.
#[derive(Debug, Clone)]
pub struct BindingDescriptor {
    pub id: &'static str,
    pub action: Action,
    pub scopes: u32,
    pub defaults: Vec<&'static str>,
}

/// What a descriptor says.
#[verifier::ext_equal]
pub struct DescriptorView {
    pub id: Seq<char>,
    pub action: Action,
    pub scopes: u32,
    pub defaults: Seq<Seq<char>>,
}

impl View for BindingDescriptor {
    type V = DescriptorView;

    open spec fn view(&self) -> DescriptorView {
        DescriptorView {
            id: self.id@,
            action: self.action,
            scopes: self.scopes,
            defaults: self.defaults@.map_values(|d: &'static str| d@),
        }
    }
}

/// One non-fatal problem found in the keymap configuration.
#[derive(Debug, Clone, PartialEq, Eq)]
pub struct KeymapWarning {
    pub entry: String,
    pub reason: String,
}

/// What a warning says.
#[verifier::ext_equal]
pub struct WarningView {
    pub entry: Seq<char>,
    pub reason: Seq<char>,
}

impl View for KeymapWarning {
    type V = WarningView;

    open spec fn view(&self) -> WarningView {
        WarningView { entry: self.entry@, reason: self.reason@ }
    }
}

/// One entry of the keymap configuration. `shortcuts` is `None` where the
/// value is not a list, and holds `None` for a list item that is not a text.
#[derive(Debug)]
pub struct ConfigEntry {
    pub id: String,
    pub shortcuts: Option<Vec<Option<String>>>,
}

/// What a configuration entry says.
#[verifier::ext_equal]
pub struct EntryView {
    pub id: Seq<char>,
    pub shortcuts: Option<Seq<Option<Seq<char>>>>,
}

impl View for ConfigEntry {
    type V = EntryView;

    open spec fn view(&self) -> EntryView {
        EntryView {
            id: self.id@,
            shortcuts: match self.shortcuts {
                None => None,
                Some(items) => Some(items@.map_values(|t: Option<String>| text::opt_text(t))),
            },
        }
    }
}

/// The views of some configuration entries.
pub open spec fn entries(v: Seq<ConfigEntry>) -> Seq<EntryView> {
    v.map_values(|e: ConfigEntry| e@)
}

/// The keys the user chose for one command.
#[derive(Debug, Clone)]
pub struct Override {
    id: &'static str,
    action: Action,
    scopes: u32,
    bindings: Vec<KeyBinding>,
}

/// What an override says.
#[verifier::ext_equal]
pub struct OverrideView {
    pub id: Seq<char>,
    pub action: Action,
    pub scopes: u32,
    pub bindings: Seq<KeyBinding>,
}

impl View for Override {
    type V = OverrideView;

    closed spec fn view(&self) -> OverrideView {
        OverrideView { id: self.id@, action: self.action, scopes: self.scopes, bindings: self.bindings@ }
    }
}

/// The keyboard configuration, resolved once at startup.
#[derive(Debug, Clone)]
pub struct ResolvedKeymap {
    overrides: Vec<Override>,
    warnings: Vec<KeymapWarning>,
}

/// The overrides in the order they were configured, and the warnings in the
/// order they were found.
#[verifier::ext_equal]
pub struct KeymapView {
    pub overrides: Seq<OverrideView>,
    pub warnings: Seq<WarningView>,
}

/// The views of some warnings.
pub open spec fn warning_views(v: Seq<KeymapWarning>) -> Seq<WarningView> {
    v.map_values(|w: KeymapWarning| w@)
}

spec fn override_views(v: Seq<Override>) -> Seq<OverrideView> {
    v.map_values(|o: Override| o@)
}

impl View for ResolvedKeymap {
    type V = KeymapView;

    closed spec fn view(&self) -> KeymapView {
        KeymapView { overrides: override_views(self.overrides@), warnings: warning_views(self.warnings@) }
    }
}

impl Default for ResolvedKeymap {
    fn default() -> (k: ResolvedKeymap)
        ensures
            k@ == (KeymapView { overrides: Seq::empty(), warnings: Seq::empty() }),
    {
        let k = ResolvedKeymap { overrides: Vec::new(), warnings: Vec::new() };
        assert(k@ =~= (KeymapView { overrides: Seq::empty(), warnings: Seq::empty() }));
        k
    }
}

/// The command an identifier stands for: older names are still understood.
pub open spec fn canonical(id: Seq<char>) -> Seq<char> {
    if id == "command-palette"@ || id == "open-palette"@ {
        "open-command-palette"@
    } else {
        id
    }
}

/// The position in the registry of the command with an identifier.
pub open spec fn position(id: Seq<char>) -> Option<int> {
    search::first_such(registry::registry().len() as int, |i: int| registry::registry()[i].id == id)
}

/// The bindings that a list of shortcut texts means, each once, or why the
/// first bad one is bad.
pub open spec fn gathered(items: Seq<Option<Seq<char>>>) -> Result<Seq<KeyBinding>, Seq<char>>
    decreases items.len(),
{
    if items.len() == 0 {
        Ok(Seq::empty())
    } else {
        match gathered(items.drop_last()) {
            Err(reason) => Err(reason),
            Ok(bindings) => match items.last() {
                None => Err("every shortcut must be a string"@),
                Some(source) => match binding::parsed(source) {
                    Err(reason) => Err("'"@ + source + "' is invalid: "@ + reason),
                    Ok(key) => if bindings.contains(key) {
                        Ok(bindings)
                    } else {
                        Ok(bindings.push(key))
                    },
                },
            },
        }
    }
}

/// The bindings that texts of the registry mean; a text that is no binding
/// means none.
pub open spec fn defaults_of(items: Seq<Seq<char>>) -> Seq<KeyBinding>
    decreases items.len(),
{
    if items.len() == 0 {
        Seq::empty()
    } else {
        match binding::parsed(items.last()) {
            Err(_) => defaults_of(items.drop_last()),
            Ok(key) => defaults_of(items.drop_last()).push(key),
        }
    }
}

/// The message for a key claimed by two commands.
pub open spec fn conflict(loser: Seq<char>, how: Seq<char>, winner: Seq<char>, key: KeyBinding) -> Seq<char> {
    "conflict: '"@ + loser + how + winner + "' both use "@ + key.shown() + "; '"@ + winner + "' wins"@
}

/// The warnings about earlier overrides that share a context and a key.
pub open spec fn override_conflicts(
    overrides: Seq<OverrideView>,
    d: DescriptorView,
    entry: Seq<char>,
    key: KeyBinding,
) -> Seq<WarningView>
    decreases overrides.len(),
{
    if overrides.len() == 0 {
        Seq::empty()
    } else {
        let before = override_conflicts(overrides.drop_last(), d, entry, key);
        let earlier = overrides.last();
        if earlier.scopes & d.scopes != 0 && earlier.bindings.contains(key) {
            before.push(WarningView { entry, reason: conflict(earlier.id, "' and '"@, d.id, key) })
        } else {
            before
        }
    }
}

/// Whether the configuration has an entry under exactly this identifier.
pub open spec fn configured(table: Seq<EntryView>, id: Seq<char>) -> bool {
    exists|i: int| 0 <= i < table.len() && (#[trigger] table[i]).id == id
}

/// The warnings about commands that keep their defaults and use the same key
/// in a shared context.
pub open spec fn default_conflicts(
    rows: Seq<DescriptorView>,
    table: Seq<EntryView>,
    d: DescriptorView,
    entry: Seq<char>,
    key: KeyBinding,
) -> Seq<WarningView>
    decreases rows.len(),
{
    if rows.len() == 0 {
        Seq::empty()
    } else {
        let before = default_conflicts(rows.drop_last(), table, d, entry, key);
        let other = rows.last();
        if other.id != d.id && other.scopes & d.scopes != 0 && !configured(table, other.id) && defaults_of(
            other.defaults,
        ).contains(key) {
            before.push(WarningView { entry, reason: conflict(other.id, "' default and '"@, d.id, key) })
        } else {
            before
        }
    }
}

/// All conflict warnings for the keys chosen for a command.
pub open spec fn conflicts(
    overrides: Seq<OverrideView>,
    table: Seq<EntryView>,
    d: DescriptorView,
    entry: Seq<char>,
    keys: Seq<KeyBinding>,
) -> Seq<WarningView>
    decreases keys.len(),
{
    if keys.len() == 0 {
        Seq::empty()
    } else {
        conflicts(overrides, table, d, entry, keys.drop_last()) + override_conflicts(
            overrides,
            d,
            entry,
            keys.last(),
        ) + default_conflicts(registry::registry(), table, d, entry, keys.last())
    }
}

impl KeymapView {
    /// The configuration with one more warning.
    pub open spec fn warned(self, entry: Seq<char>, reason: Seq<char>) -> KeymapView {
        KeymapView { overrides: self.overrides, warnings: self.warnings.push(WarningView { entry, reason }) }
    }

    /// The configuration after one more entry of the table.
    pub open spec fn configure(self, table: Seq<EntryView>, e: EntryView) -> KeymapView {
        match position(canonical(e.id)) {
            None => self.warned(e.id, "unknown action identifier"@),
            Some(at) => match e.shortcuts {
                None => self.warned(e.id, "expected a list of shortcut strings"@),
                Some(items) => match gathered(items) {
                    Err(reason) => self.warned(e.id, reason),
                    Ok(keys) => {
                        let d = registry::registry()[at];
                        KeymapView {
                            overrides: self.overrides.push(
                                OverrideView { id: d.id, action: d.action, scopes: d.scopes, bindings: keys },
                            ),
                            warnings: self.warnings + conflicts(self.overrides, table, d, e.id, keys),
                        }
                    },
                },
            },
        }
    }
}

/// The configuration after the first `n` entries of a table.
pub open spec fn resolved(table: Seq<EntryView>, n: int) -> KeymapView
    decreases n,
{
    if n <= 0 {
        KeymapView { overrides: Seq::empty(), warnings: Seq::empty() }
    } else {
        resolved(table, n - 1).configure(table, table[n - 1])
    }
}

fn alias(id: &str) -> (name: Option<&'static str>)
    ensures
        match name {
            Some(n) => n@ == canonical(id@),
            None => id@ == canonical(id@),
        },
{
    if text::same_text(id, "command-palette") || text::same_text(id, "open-palette") {
        Some("open-command-palette")
    } else {
        None
    }
}

fn canonical_of(id: &str) -> (name: String)
    ensures
        name@ == canonical(id@),
{
    match alias(id) {
        Some(name) => name.to_owned(),
        None => id.to_owned(),
    }
}

fn descriptor(table: &Vec<BindingDescriptor>, id: &str) -> (at: Option<usize>)
    requires
        registry::rows(table@) == registry::registry(),
    ensures
        match at {
            Some(i) => i < table.len() && position(id@) == Some(i as int),
            None => position(id@) is None,
        },
{
    let ghost p = |i: int| registry::registry()[i].id == id@;
    let mut i: usize = 0;
    assert(registry::rows(table@).len() == table.len());
    while i < table.len()
        invariant
            0 <= i <= table.len(),
            table.len() == registry::registry().len(),
            registry::rows(table@) == registry::registry(),
            p == (|i: int| registry::registry()[i].id == id@),
            forall|j: int| 0 <= j < i ==> !(#[trigger] p(j)),
        decreases table.len() - i,
    {
        assert(registry::rows(table@)[i as int] == table@[i as int]@);
        if text::same_text(table[i].id, id) {
            proof {
                assert(p(i as int));
                search::lemma_first_such(registry::registry().len() as int, p, i as int);
            }
            return Some(i);
        }
        assert(!p(i as int));
        i = i + 1;
    }
    proof {
        search::lemma_no_such(registry::registry().len() as int, p);
    }
    None
}

fn holds_key(keys: &Vec<KeyBinding>, key: KeyBinding) -> (yes: bool)
    ensures
        yes == keys@.contains(key),
{
    let mut i: usize = 0;
    while i < keys.len()
        invariant
            0 <= i <= keys.len(),
            forall|j: int| 0 <= j < i ==> keys@[j] != key,
        decreases keys.len() - i,
    {
        if keys[i] == key {
            assert(keys@[i as int] == key);
            return true;
        }
        i = i + 1;
    }
    false
}

impl BindingDescriptor {
    /// The default keys of a command.
    fn parsed_defaults(&self) -> (keys: Vec<KeyBinding>)
        ensures
            keys@ == defaults_of(self@.defaults),
    {
        let ghost items = self@.defaults;
        let mut keys: Vec<KeyBinding> = Vec::new();
        let mut i: usize = 0;
        assert(items.take(0) =~= Seq::empty());
        while i < self.defaults.len()
            invariant
                0 <= i <= self.defaults.len(),
                items == self@.defaults,
                items.len() == self.defaults.len(),
                keys@ == defaults_of(items.take(i as int)),
            decreases self.defaults.len() - i,
        {
            let parsed = KeyBinding::from_str(self.defaults[i]);
            assert(items.take(i + 1).drop_last() =~= items.take(i as int));
            assert(items.take(i + 1).last() == self.defaults@[i as int]@);
            if let Ok(key) = parsed {
                keys.push(key);
            }
            i = i + 1;
        }
        assert(items.take(i as int) =~= items);
        keys
    }
}

fn gather(items: &Vec<Option<String>>) -> (r: Result<Vec<KeyBinding>, String>)
    ensures
        match r {
            Ok(keys) => gathered(items@.map_values(|t: Option<String>| text::opt_text(t))) == Ok::<
                Seq<KeyBinding>,
                Seq<char>,
            >(keys@),
            Err(reason) => gathered(items@.map_values(|t: Option<String>| text::opt_text(t))) == Err::<
                Seq<KeyBinding>,
                Seq<char>,
            >(reason@),
        },
{
    let ghost all = items@.map_values(|t: Option<String>| text::opt_text(t));
    let mut keys: Vec<KeyBinding> = Vec::new();
    let mut i: usize = 0;
    assert(all.take(0) =~= Seq::empty());
    while i < items.len()
        invariant
            0 <= i <= items.len(),
            all == items@.map_values(|t: Option<String>| text::opt_text(t)),
            gathered(all.take(i as int)) == Ok::<Seq<KeyBinding>, Seq<char>>(keys@),
        decreases items.len() - i,
    {
        assert(all.take(i + 1).drop_last() =~= all.take(i as int));
        assert(all.take(i + 1).last() == text::opt_text(items@[i as int]));
        let bad: Option<String> = match &items[i] {
            None => Some("every shortcut must be a string".to_owned()),
            Some(source) => match KeyBinding::from_str(source.as_str()) {
                Err(reason) => {
                    let mut message = "'".to_owned();
                    message.append(source.as_str());
                    message.append("' is invalid: ");
                    message.append(reason.as_str());
                    Some(message)
                },
                Ok(key) => {
                    if !holds_key(&keys, key) {
                        keys.push(key);
                    }
                    None
                },
            },
        };
        if let Some(reason) = bad {
            proof {
                lemma_gather_fails(all, i + 1);
            }
            return Err(reason);
        }
        i = i + 1;
    }
    assert(all.take(i as int) =~= all);
    Ok(keys)
}

proof fn lemma_gather_fails(items: Seq<Option<Seq<char>>>, n: int)
    requires
        0 <= n <= items.len(),
        gathered(items.take(n)) is Err,
    ensures
        gathered(items) == gathered(items.take(n)),
    decreases items.len(),
{
    if n == items.len() {
        assert(items.take(n) =~= items);
    } else {
        assert(items.drop_last().take(n) =~= items.take(n));
        lemma_gather_fails(items.drop_last(), n);
    }
}

fn conflict_text(loser: &str, how: &str, winner: &str, key: KeyBinding) -> (s: String)
    ensures
        s@ == conflict(loser@, how@, winner@, key),
{
    let mut s = "conflict: '".to_owned();
    s.append(loser);
    s.append(how);
    s.append(winner);
    s.append("' both use ");
    s.append(key.to_string().as_str());
    s.append("; '");
    s.append(winner);
    s.append("' wins");
    s
}

fn warn(warnings: &mut Vec<KeymapWarning>, entry: &str, reason: String)
    ensures
        warning_views(final(warnings)@) == warning_views(old(warnings)@).push(
            WarningView { entry: entry@, reason: reason@ },
        ),
{
    warnings.push(KeymapWarning { entry: entry.to_owned(), reason });
    assert(warning_views(warnings@) =~= warning_views(old(warnings)@).push(
        WarningView { entry: entry@, reason: reason@ },
    ));
}

fn warn_overrides(
    overrides: &Vec<Override>,
    d: &BindingDescriptor,
    entry: &str,
    key: KeyBinding,
    warnings: &mut Vec<KeymapWarning>,
)
    ensures
        warning_views(final(warnings)@) == warning_views(old(warnings)@) + override_conflicts(
            override_views(overrides@),
            d@,
            entry@,
            key,
        ),
{
    let ghost all = override_views(overrides@);
    let ghost before = warning_views(warnings@);
    let mut i: usize = 0;
    assert(all.take(0) =~= Seq::empty());
    assert(before + Seq::empty() =~= before);
    while i < overrides.len()
        invariant
            0 <= i <= overrides.len(),
            all == override_views(overrides@),
            warning_views(warnings@) == before + override_conflicts(all.take(i as int), d@, entry@, key),
        decreases overrides.len() - i,
    {
        let earlier = &overrides[i];
        assert(all.take(i + 1).drop_last() =~= all.take(i as int));
        assert(all.take(i + 1).last() == earlier@);
        if earlier.scopes & d.scopes != 0 && holds_key(&earlier.bindings, key) {
            warn(warnings, entry, conflict_text(earlier.id, "' and '", d.id, key));
        }
        assert(warning_views(warnings@) =~= before + override_conflicts(all.take(i + 1), d@, entry@, key));
        i = i + 1;
    }
    assert(all.take(i as int) =~= all);
}

fn is_configured(table: &[ConfigEntry], id: &str) -> (yes: bool)
    ensures
        yes == configured(entries(table@), id@),
{
    let mut i: usize = 0;
    while i < table.len()
        invariant
            0 <= i <= table.len(),
            forall|j: int| 0 <= j < i ==> (#[trigger] entries(table@)[j]).id != id@,
        decreases table.len() - i,
    {
        assert(entries(table@)[i as int] == table@[i as int]@);
        if text::same_text(table[i].id.as_str(), id) {
            return true;
        }
        i = i + 1;
    }
    false
}

fn warn_defaults(
    rows: &Vec<BindingDescriptor>,
    table: &[ConfigEntry],
    d: &BindingDescriptor,
    entry: &str,
    key: KeyBinding,
    warnings: &mut Vec<KeymapWarning>,
)
    ensures
        warning_views(final(warnings)@) == warning_views(old(warnings)@) + default_conflicts(
            registry::rows(rows@),
            entries(table@),
            d@,
            entry@,
            key,
        ),
{
    let ghost all = registry::rows(rows@);
    let ghost t = entries(table@);
    let ghost before = warning_views(warnings@);
    let mut i: usize = 0;
    assert(all.take(0) =~= Seq::empty());
    assert(before + Seq::empty() =~= before);
    while i < rows.len()
        invariant
            0 <= i <= rows.len(),
            all == registry::rows(rows@),
            t == entries(table@),
            warning_views(warnings@) == before + default_conflicts(all.take(i as int), t, d@, entry@, key),
        decreases rows.len() - i,
    {
        let other = &rows[i];
        assert(all.take(i + 1).drop_last() =~= all.take(i as int));
        assert(all.take(i + 1).last() == other@);
        if !text::same_text(other.id, d.id) && other.scopes & d.scopes != 0 && !is_configured(table, other.id)
            && holds_key(&other.parsed_defaults(), key) {
            warn(warnings, entry, conflict_text(other.id, "' default and '", d.id, key));
        }
        assert(warning_views(warnings@) =~= before + default_conflicts(all.take(i + 1), t, d@, entry@, key));
        i = i + 1;
    }
    assert(all.take(i as int) =~= all);
}

fn warn_conflicts(
    overrides: &Vec<Override>,
    rows: &Vec<BindingDescriptor>,
    table: &[ConfigEntry],
    d: &BindingDescriptor,
    entry: &str,
    keys: &Vec<KeyBinding>,
    warnings: &mut Vec<KeymapWarning>,
)
    requires
        registry::rows(rows@) == registry::registry(),
    ensures
        warning_views(final(warnings)@) == warning_views(old(warnings)@) + conflicts(
            override_views(overrides@),
            entries(table@),
            d@,
            entry@,
            keys@,
        ),
{
    let ghost o = override_views(overrides@);
    let ghost t = entries(table@);
    let ghost before = warning_views(warnings@);
    let mut i: usize = 0;
    assert(keys@.take(0) =~= Seq::empty());
    assert(before + Seq::empty() =~= before);
    while i < keys.len()
        invariant
            0 <= i <= keys.len(),
            o == override_views(overrides@),
            t == entries(table@),
            registry::rows(rows@) == registry::registry(),
            warning_views(warnings@) == before + conflicts(o, t, d@, entry@, keys@.take(i as int)),
        decreases keys.len() - i,
    {
        let key = keys[i];
        assert(keys@.take(i + 1).drop_last() =~= keys@.take(i as int));
        warn_overrides(overrides, d, entry, key, warnings);
        warn_defaults(rows, table, d, entry, key, warnings);
        assert(warning_views(warnings@) =~= before + conflicts(o, t, d@, entry@, keys@.take(i + 1)));
        i = i + 1;
    }
    assert(keys@.take(i as int) =~= keys@);
}

impl ResolvedKeymap {
    /// Resolves a configuration table. A bad entry is skipped with a warning;
    /// of two commands on one key the later entry wins, with a warning.
    pub fn from_table(table: &[ConfigEntry]) -> (keymap: ResolvedKeymap)
        ensures
            keymap@ == resolved(entries(table@), table.len() as int),
    {
        let ghost t = entries(table@);
        let rows = binding_registry();
        let mut overrides: Vec<Override> = Vec::new();
        let mut warnings: Vec<KeymapWarning> = Vec::new();
        assert(override_views(overrides@) =~= Seq::empty());
        assert(warning_views(warnings@) =~= Seq::empty());
        let mut i: usize = 0;
        while i < table.len()
            invariant
                0 <= i <= table.len(),
                t == entries(table@),
                registry::rows(rows@) == registry::registry(),
                override_views(overrides@) == resolved(t, i as int).overrides,
                warning_views(warnings@) == resolved(t, i as int).warnings,
            decreases table.len() - i,
        {
            let e = &table[i];
            assert(t[i as int] == e@);
            let name = canonical_of(e.id.as_str());
            match descriptor(&rows, name.as_str()) {
                None => warn(&mut warnings, e.id.as_str(), "unknown action identifier".to_owned()),
                Some(at) => match &e.shortcuts {
                    None => warn(
                        &mut warnings,
                        e.id.as_str(),
                        "expected a list of shortcut strings".to_owned(),
                    ),
                    Some(items) => match gather(items) {
                        Err(reason) => warn(&mut warnings, e.id.as_str(), reason),
                        Ok(bindings) => {
                            let d = &rows[at];
                            assert(registry::rows(rows@)[at as int] == d@);
                            warn_conflicts(
                                &overrides,
                                &rows,
                                table,
                                d,
                                e.id.as_str(),
                                &bindings,
                                &mut warnings,
                            );
                            let ghost before = overrides@;
                            let added = Override { id: d.id, action: d.action, scopes: d.scopes, bindings };
                            overrides.push(added);
                            assert(override_views(overrides@) =~= override_views(before).push(added@));
                        },
                    },
                },
            }
            i = i + 1;
        }
        ResolvedKeymap { overrides, warnings }
    }

    /// The problems found in the configuration.
    pub fn warnings(&self) -> (w: &[KeymapWarning])
        ensures
            warning_views(w@) == self@.warnings,
    {
        self.warnings.as_slice()
    }
}

/// The last override for a command.
pub open spec fn latest(overrides: Seq<OverrideView>, id: Seq<char>) -> Option<OverrideView>
    decreases overrides.len(),
{
    if overrides.len() == 0 {
        None
    } else if overrides.last().id == id {
        Some(overrides.last())
    } else {
        latest(overrides.drop_last(), id)
    }
}

/// The keys in effect for a command: those of its last override, else its
/// defaults, else none.
pub open spec fn effective(overrides: Seq<OverrideView>, id: Seq<char>) -> Seq<KeyBinding> {
    match latest(overrides, canonical(id)) {
        Some(o) => o.bindings,
        None => match position(canonical(id)) {
            Some(at) => defaults_of(registry::registry()[at].defaults),
            None => Seq::empty(),
        },
    }
}

/// Keys as shown to the user, separated by slashes.
pub open spec fn shown_keys(keys: Seq<KeyBinding>) -> Seq<char>
    decreases keys.len(),
{
    if keys.len() == 0 {
        Seq::empty()
    } else if keys.len() == 1 {
        keys[0].shown()
    } else {
        shown_keys(keys.drop_last()) + " / "@ + keys.last().shown()
    }
}

/// Whether some key of a list is triggered by an event.
pub open spec fn any_fires(keys: Seq<KeyBinding>, key: KeyEvent) -> bool {
    exists|i: int| 0 <= i < keys.len() && (#[trigger] keys[i]).fires(key)
}

/// The action of the last override that is reachable in the active contexts
/// and triggered by an event.
pub open spec fn routed(overrides: Seq<OverrideView>, active: u32, key: KeyEvent) -> Option<Action>
    decreases overrides.len(),
{
    if overrides.len() == 0 {
        None
    } else if overrides.last().scopes & active != 0 && any_fires(overrides.last().bindings, key) {
        Some(overrides.last().action)
    } else {
        routed(overrides.drop_last(), active, key)
    }
}

/// The context that a mode puts the keyboard in.
pub open spec fn local_scope(
    mode: AppMode,
    panel: FocusedPanel,
    editing_commit: bool,
    files_filter_active: bool,
    commit_filter_active: bool,
) -> u32 {
    match mode {
        AppMode::Normal => match panel {
            FocusedPanel::Graph => if commit_filter_active { INPUT } else { GRAPH },
            FocusedPanel::Files => if files_filter_active { INPUT } else { FILES },
            FocusedPanel::CommitDetail => if editing_commit { EDITOR } else { DETAIL },
        },
        AppMode::Help => HELP,
        AppMode::Input { action } => if action == InputAction::Search { SEARCH } else { INPUT },
        AppMode::Confirm => CONFIRM,
        AppMode::RebasePlan => REBASE_PLAN,
        AppMode::Settings => SETTINGS,
        AppMode::PrThread => PR_THREAD,
        AppMode::PrCompose => COMPOSE,
        AppMode::IssueCompose => COMPOSE,
        AppMode::IssueList => ISSUE_LIST,
        AppMode::IssueDetail => ISSUE_DETAIL,
        AppMode::IssueLabelPicker => ISSUE_LABELS,
        AppMode::IssueLabelFilter => ISSUE_LABELS,
        AppMode::CiChecks => CI_CHECKS,
        AppMode::BranchFilter => BRANCH_FILTER,
        AppMode::FileDiff => FILE_DIFF,
        AppMode::CommandPalette => PALETTE,
        _ => MENU,
    }
}

fn active_scopes(
    mode: &AppMode,
    panel: FocusedPanel,
    editing_commit: bool,
    files_filter_active: bool,
    commit_filter_active: bool,
) -> (scopes: u32)
    ensures
        scopes == GLOBAL | local_scope(*mode, panel, editing_commit, files_filter_active, commit_filter_active),
{
    let local: u32 = match mode {
        AppMode::Normal => {
            if editing_commit && panel == FocusedPanel::CommitDetail {
                EDITOR
            } else if files_filter_active && panel == FocusedPanel::Files {
                INPUT
            } else if commit_filter_active && panel == FocusedPanel::Graph {
                INPUT
            } else {
                match panel {
                    FocusedPanel::Graph => GRAPH,
                    FocusedPanel::Files => FILES,
                    FocusedPanel::CommitDetail => DETAIL,
                }
            }
        },
        AppMode::Help => HELP,
        AppMode::Input { action } => if *action == InputAction::Search { SEARCH } else { INPUT },
        AppMode::Confirm => CONFIRM,
        AppMode::RebasePlan => REBASE_PLAN,
        AppMode::Settings => SETTINGS,
        AppMode::PrThread => PR_THREAD,
        AppMode::PrCompose | AppMode::IssueCompose => COMPOSE,
        AppMode::IssueList => ISSUE_LIST,
        AppMode::IssueDetail => ISSUE_DETAIL,
        AppMode::IssueLabelPicker | AppMode::IssueLabelFilter => ISSUE_LABELS,
        AppMode::CiChecks => CI_CHECKS,
        AppMode::BranchFilter => BRANCH_FILTER,
        AppMode::FileDiff => FILE_DIFF,
        AppMode::CommandPalette => PALETTE,
        _ => MENU,
    };
    GLOBAL | local
}

fn any_matches(keys: &Vec<KeyBinding>, key: KeyEvent) -> (yes: bool)
    ensures
        yes == any_fires(keys@, key),
{
    let mut i: usize = 0;
    while i < keys.len()
        invariant
            0 <= i <= keys.len(),
            forall|j: int| 0 <= j < i ==> !(#[trigger] keys@[j]).fires(key),
        decreases keys.len() - i,
    {
        if keys[i].matches(key) {
            assert(keys@[i as int].fires(key));
            return true;
        }
        i = i + 1;
    }
    false
}

fn join_keys(keys: &Vec<KeyBinding>) -> (s: String)
    ensures
        s@ == shown_keys(keys@),
{
    let mut s = String::new();
    let mut i: usize = 0;
    assert(keys@.take(0) =~= Seq::empty());
    while i < keys.len()
        invariant
            0 <= i <= keys.len(),
            s@ == shown_keys(keys@.take(i as int)),
        decreases keys.len() - i,
    {
        assert(keys@.take(i + 1).drop_last() =~= keys@.take(i as int));
        if i > 0 {
            s.append(" / ");
        }
        s.append(keys[i].to_string().as_str());
        assert(s@ =~= shown_keys(keys@.take(i + 1)));
        i = i + 1;
    }
    assert(keys@.take(i as int) =~= keys@);
    s
}

impl ResolvedKeymap {
    fn latest_override(&self, id: &str) -> (at: Option<usize>)
        ensures
            match at {
                Some(i) => i < self.overrides.len() && latest(self@.overrides, id@) == Some(
                    self.overrides[i as int]@,
                ),
                None => latest(self@.overrides, id@) is None,
            },
    {
        let ghost all = self@.overrides;
        let mut i: usize = self.overrides.len();
        assert(all.take(i as int) =~= all);
        while i > 0
            invariant
                0 <= i <= self.overrides.len(),
                all == override_views(self.overrides@),
                latest(all, id@) == latest(all.take(i as int), id@),
            decreases i,
        {
            assert(all.take(i as int).drop_last() =~= all.take(i - 1));
            assert(all.take(i as int).last() == self.overrides@[i - 1]@);
            i = i - 1;
            if text::same_text(self.overrides[i].id, id) {
                return Some(i);
            }
        }
        None
    }

    /// The keys in effect for a command, for display.
    pub fn display_bindings(&self, id: &str) -> (s: String)
        ensures
            s@ == (if effective(self@.overrides, id@).len() == 0 {
                "Unassigned"@
            } else {
                shown_keys(effective(self@.overrides, id@))
            }),
    {
        let name = canonical_of(id);
        match self.latest_override(name.as_str()) {
            Some(at) => {
                let keys = &self.overrides[at].bindings;
                if keys.len() == 0 {
                    "Unassigned".to_owned()
                } else {
                    join_keys(keys)
                }
            },
            None => {
                let rows = binding_registry();
                match descriptor(&rows, name.as_str()) {
                    Some(at) => {
                        assert(registry::rows(rows@)[at as int] == rows@[at as int]@);
                        let keys = rows[at].parsed_defaults();
                        if keys.len() == 0 {
                            "Unassigned".to_owned()
                        } else {
                            join_keys(&keys)
                        }
                    },
                    None => "Unassigned".to_owned(),
                }
            },
        }
    }

    /// Whether the user chose the keys of a command.
    pub fn is_overridden(&self, id: &str) -> (yes: bool)
        ensures
            yes == latest(self@.overrides, canonical(id@)) is Some,
    {
        let name = canonical_of(id);
        self.latest_override(name.as_str()).is_some()
    }

    /// The action that the user bound to a key event, if any.
    pub fn action_for_key(
        &self,
        key: KeyEvent,
        mode: &AppMode,
        panel: FocusedPanel,
        editing_commit: bool,
        files_filter_active: bool,
        commit_filter_active: bool,
    ) -> (action: Option<Action>)
        ensures
            action == routed(
                self@.overrides,
                GLOBAL | local_scope(*mode, panel, editing_commit, files_filter_active, commit_filter_active),
                key,
            ),
    {
        let active: u32 = active_scopes(mode, panel, editing_commit, files_filter_active, commit_filter_active);
        let ghost all = self@.overrides;
        let mut i: usize = self.overrides.len();
        assert(all.take(i as int) =~= all);
        while i > 0
            invariant
                0 <= i <= self.overrides.len(),
                all == override_views(self.overrides@),
                all == self@.overrides,
                active == GLOBAL | local_scope(
                    *mode,
                    panel,
                    editing_commit,
                    files_filter_active,
                    commit_filter_active,
                ),
                routed(all, active, key) == routed(all.take(i as int), active, key),
            decreases i,
        {
            assert(all.take(i as int).drop_last() =~= all.take(i - 1));
            assert(all.take(i as int).last() == self.overrides@[i - 1]@);
            i = i - 1;
            let entry = &self.overrides[i];
            if entry.scopes & active != 0 && any_matches(&entry.bindings, key) {
                return Some(entry.action);
            }
        }
        None
    }

    /// Whether the user chose the keys of the command that performs an action,
    /// so that its built-in keys no longer apply.
    pub fn replaces_action(&self, action: &Action) -> (yes: bool)
        ensures
            yes == match id_of(*action) {
                Some(id) => latest(self@.overrides, id) is Some,
                None => false,
            },
    {
        match public_action_id(action) {
            Some(id) => self.latest_override(id).is_some(),
            None => false,
        }
    }
}

/// The identifier of the first command that performs an action.
pub open spec fn id_of(action: Action) -> Option<Seq<char>> {
    match search::first_such(
        registry::registry().len() as int,
        |i: int| registry::registry()[i].action == action,
    ) {
        Some(i) => Some(registry::registry()[i].id),
        None => None,
    }
}

/// The identifier of the command that performs an action, where it has one.
pub fn public_action_id(action: &Action) -> (id: Option<&'static str>)
    ensures
        match id {
            Some(s) => id_of(*action) == Some(s@),
            None => id_of(*action) is None,
        },
{
    let rows = binding_registry();
    let ghost p = |i: int| registry::registry()[i].action == *action;
    let mut i: usize = 0;
    assert(registry::rows(rows@).len() == rows.len());
    while i < rows.len()
        invariant
            0 <= i <= rows.len(),
            rows.len() == registry::registry().len(),
            registry::rows(rows@) == registry::registry(),
            p == (|i: int| registry::registry()[i].action == *action),
            forall|j: int| 0 <= j < i ==> !(#[trigger] p(j)),
        decreases rows.len() - i,
    {
        assert(registry::rows(rows@)[i as int] == rows@[i as int]@);
        if rows[i].action == *action {
            proof {
                assert(p(i as int));
                search::lemma_first_such(registry::registry().len() as int, p, i as int);
            }
            return Some(rows[i].id);
        }
        assert(!p(i as int));
        i = i + 1;
    }
    proof {
        search::lemma_no_such(registry::registry().len() as int, p);
    }
    None
}

/// The older names that are still understood, each with the command it means.
pub fn aliases() -> (pairs: Vec<(&'static str, &'static str)>)
    ensures
        pairs@ == seq![("command-palette", "open-command-palette"), ("open-palette", "open-command-palette")],
        forall|id: Seq<char>|
            #[trigger] canonical(id) == (if exists|i: int| 0 <= i < pairs.len() && (#[trigger] pairs[i]).0@ == id {
                "open-command-palette"@
            } else {
                id
            }),
{
    let mut pairs: Vec<(&'static str, &'static str)> = Vec::new();
    pairs.push(("command-palette", "open-command-palette"));
    pairs.push(("open-palette", "open-command-palette"));
    assert(pairs@[0].0@ == "command-palette"@ && pairs@[1].0@ == "open-palette"@);
    pairs
}

/// Of two overrides that are reachable and triggered, the later one is taken.
pub proof fn law_later_override_wins(overrides: Seq<OverrideView>, o: OverrideView, active: u32, key: KeyEvent)
    requires
        o.scopes & active != 0,
        any_fires(o.bindings, key),
    ensures
        routed(overrides.push(o), active, key) == Some(o.action),
{
    assert(overrides.push(o).last() == o);
}

/// Letting a key go triggers nothing, whatever is configured.
pub proof fn law_release_routes_nothing(overrides: Seq<OverrideView>, active: u32, key: KeyEvent)
    requires
        key.kind == KeyEventKind::Release,
    ensures
        routed(overrides, active, key) is None,
    decreases overrides.len(),
{
    if overrides.len() > 0 {
        law_release_routes_nothing(overrides.drop_last(), active, key);
    }
}

/// Problems in a configuration are never fatal: an entry either becomes one
/// override, or adds exactly one warning and changes nothing else.
pub proof fn law_bad_entry_is_only_warned_about(k: KeymapView, table: Seq<EntryView>, e: EntryView)
    ensures
        k.configure(table, e).overrides.len() == k.overrides.len() + 1 || {
            &&& k.configure(table, e).overrides == k.overrides
            &&& k.configure(table, e).warnings.len() == k.warnings.len() + 1
            &&& k.configure(table, e).warnings.drop_last() == k.warnings
            &&& k.configure(table, e).warnings.last().entry == e.id
        },
{
    let after = k.configure(table, e);
    if after.overrides.len() != k.overrides.len() + 1 {
        assert(after.warnings.drop_last() =~= k.warnings);
    }
}

/// A command configured with an empty list of shortcuts has no key left.
pub proof fn law_empty_list_unbinds(k: KeymapView, table: Seq<EntryView>, e: EntryView)
    requires
        position(canonical(e.id)) is Some,
        e.shortcuts == Some(Seq::<Option<Seq<char>>>::empty()),
    ensures
        effective(k.configure(table, e).overrides, e.id).len() == 0,
        latest(k.configure(table, e).overrides, canonical(e.id)) is Some,
{
    search::lemma_first_such_holds(
        registry::registry().len() as int,
        |i: int| registry::registry()[i].id == canonical(e.id),
    );
    let at = position(canonical(e.id)).unwrap();
    let after = k.configure(table, e);
    assert(gathered(Seq::empty()) == Ok::<Seq<KeyBinding>, Seq<char>>(Seq::empty()));
    assert(after.overrides.last().id == canonical(e.id));
}

/// The palette has two other names; every other identifier stands for itself.
pub proof fn law_aliases(id: Seq<char>)
    ensures
        canonical("command-palette"@) == "open-command-palette"@,
        canonical("open-palette"@) == "open-command-palette"@,
        id != "command-palette"@ && id != "open-palette"@ ==> canonical(id) == id,
{
}

} // verus!
