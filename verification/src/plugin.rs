//! Installed plugins, and the key-value store that the host keeps for them.

use vstd::prelude::*;
use vstd::string::*;
use crate::paths;
use crate::text;

verus! {

/// The manifest of a plugin, `plugin.json`.
#[derive(Debug)]
pub struct PluginManifest {
    pub id: String,
    pub name: String,
    pub version: String,
    /// `source`, `discovery` or `viewer`.
    pub kind: String,
    pub wasm: Option<String>,
    pub ui: Option<ViewerUi>,
    pub capabilities: Vec<String>,
    pub description: Option<String>,
}

/// The files of a viewer, and the formats that it shows.
#[derive(Debug)]
pub struct ViewerUi {
    pub js: String,
    pub css: Option<String>,
    pub formats: Vec<String>,
}

/// A plugin as it lies on disk.
pub struct Installed {
    pub manifest: PluginManifest,
    pub dir: String,
}

/// The most bytes that a plugin gets of the body of a response.
pub const MAX_BODY: u64 = 50_000_000;

// ---- viewers ----

/// The plugin is a viewer that shows the given format.
pub open spec fn shows(m: PluginManifest, format: Seq<char>) -> bool {
    m.kind@ == "viewer"@ && m.ui is Some && m.ui->0.formats.deep_view().contains(format)
}

/// The position of the first viewer for a format, from `i` on.
pub open spec fn first_viewer(s: Seq<Installed>, format: Seq<char>, i: int) -> Option<int>
    decreases s.len() - i,
{
    if i < 0 || i >= s.len() {
        None
    } else if shows(s[i].manifest, format) {
        Some(i)
    } else {
        first_viewer(s, format, i + 1)
    }
}

fn shows_format(m: &PluginManifest, format: &str) -> (r: bool)
    ensures
        r == shows(*m, format@),
{
    if !text::same(m.kind.as_str(), "viewer") {
        return false;
    }
    match &m.ui {
        Some(ui) => {
            let mut i: usize = 0;
            while i < ui.formats.len()
                invariant
                    m.ui == Some(*ui),
                    m.kind@ == "viewer"@,
                    i <= ui.formats.len(),
                    forall|j: int| 0 <= j < i ==> #[trigger] ui.formats.deep_view()[j] != format@,
                decreases ui.formats.len() - i,
            {
                assert(ui.formats.deep_view()[i as int] == ui.formats@[i as int]@);
                if text::same(ui.formats[i].as_str(), format) {
                    return true;
                }
                i += 1;
            }
            false
        },
        None => false,
    }
}

/// The first installed viewer whose manifest declares `format`.
pub fn viewer_for<'a>(installed: &'a Vec<Installed>, format: &str) -> (r: Option<
    &'a PluginManifest,
>)
    ensures
        match first_viewer(installed@, format@, 0) {
            Some(i) => r matches Some(m) && *m == installed@[i].manifest,
            None => r is None,
        },
{
    let mut i: usize = 0;
    while i < installed.len()
        invariant
            i <= installed.len(),
            first_viewer(installed@, format@, 0) == first_viewer(installed@, format@, i as int),
        decreases installed.len() - i,
    {
        if shows_format(&installed[i].manifest, format) {
            return Some(&installed[i].manifest);
        }
        i += 1;
    }
    None
}

/// A viewer that is found shows the format, and none before it does; none is
/// found only where no installed plugin shows it.
pub proof fn law_first_viewer(s: Seq<Installed>, format: Seq<char>, at: int)
    requires
        0 <= at,
    ensures
        match first_viewer(s, format, at) {
            Some(i) => at <= i < s.len() && shows(s[i].manifest, format) && forall|j: int|
                at <= j < i ==> !shows((#[trigger] s[j]).manifest, format),
            None => forall|j: int|
                at <= j < s.len() ==> !shows((#[trigger] s[j]).manifest, format),
        },
    decreases s.len() - at,
{
    if at < s.len() && !shows(s[at].manifest, format) {
        law_first_viewer(s, format, at + 1);
    }
}

// ---- host powers ----

/// The host functions that a plugin is linked to, besides the log.
#[derive(Clone, Copy, Debug, PartialEq, Eq, Structural)]
pub struct Powers {
    /// May it have the host fetch over HTTP?
    pub http: bool,
    /// May it keep values under its own keys?
    pub kv: bool,
}

/// The powers that a list of capabilities asks for.
pub open spec fn powers_of(capabilities: Seq<Seq<char>>) -> Powers {
    Powers { http: capabilities.contains("http"@), kv: capabilities.contains("kv"@) }
}

fn asks_for(capabilities: &Vec<String>, power: &str) -> (r: bool)
    ensures
        r == capabilities.deep_view().contains(power@),
{
    let mut i: usize = 0;
    while i < capabilities.len()
        invariant
            i <= capabilities.len(),
            forall|j: int| 0 <= j < i ==> (#[trigger] capabilities.deep_view()[j]) != power@,
        decreases capabilities.len() - i,
    {
        assert(capabilities.deep_view()[i as int] == capabilities@[i as int]@);
        if text::same(capabilities[i].as_str(), power) {
            return true;
        }
        i += 1;
    }
    false
}

/// What a plugin is granted: exactly the host powers that its manifest asks for.
pub fn granted(m: &PluginManifest) -> (p: Powers)
    ensures
        p == powers_of(m.capabilities.deep_view()),
        p.http == m.capabilities.deep_view().contains("http"@),
        p.kv == m.capabilities.deep_view().contains("kv"@),
{
    Powers { http: asks_for(&m.capabilities, "http"), kv: asks_for(&m.capabilities, "kv") }
}

// ---- sources ----

/// A source plugin to instantiate.
pub struct SourceModule {
    pub id: String,
    /// The path of its module.
    pub wasm: String,
    /// The host functions that it is linked to.
    pub powers: Powers,
}

#[verifier::ext_equal]
pub struct SourceModuleView {
    pub id: Seq<char>,
    pub wasm: Seq<char>,
    pub powers: Powers,
}

impl DeepView for SourceModule {
    type V = SourceModuleView;

    open spec fn deep_view(&self) -> SourceModuleView {
        SourceModuleView { id: self.id@, wasm: self.wasm@, powers: self.powers }
    }
}

/// The modules of the installed plugins that are sources and have one, each
/// with exactly the powers that its manifest asks for.
pub open spec fn source_modules(s: Seq<Installed>) -> Seq<SourceModuleView>
    decreases s.len(),
{
    if s.len() == 0 {
        seq![]
    } else {
        let rest = source_modules(s.drop_last());
        let m = s.last().manifest;
        if m.kind@ == "source"@ && m.wasm is Some {
            rest.push(
                SourceModuleView {
                    id: m.id@,
                    wasm: paths::joined_path(s.last().dir@, m.wasm->0@),
                    powers: powers_of(m.capabilities.deep_view()),
                },
            )
        } else {
            rest
        }
    }
}

/// The source plugins to instantiate, in order, each with the host powers that
/// it is granted. Of two with the same id the later one is to take the place of
/// the earlier.
pub fn load_sources(installed: &Vec<Installed>) -> (r: Vec<SourceModule>)
    ensures
        r.deep_view() == source_modules(installed@),
{
    let mut out: Vec<SourceModule> = Vec::new();
    let mut i: usize = 0;
    while i < installed.len()
        invariant
            i <= installed.len(),
            out.deep_view() == source_modules(installed@.take(i as int)),
        decreases installed.len() - i,
    {
        assert(installed@.take(i + 1).drop_last() =~= installed@.take(i as int));
        let m = &installed[i].manifest;
        let ghost before = out.deep_view();
        if text::same(m.kind.as_str(), "source") {
            if let Some(wasm) = &m.wasm {
                let module = SourceModule {
                    id: m.id.clone(),
                    wasm: paths::join_path(installed[i].dir.as_str(), wasm.as_str()),
                    powers: granted(m),
                };
                let ghost mv = module.deep_view();
                out.push(module);
                assert(out.deep_view() =~= before.push(mv));
            }
        }
        i += 1;
    }
    assert(installed@.take(installed@.len() as int) =~= installed@);
    out
}

/// Every module is that of an installed source, and is linked to exactly the
/// host powers that this source's manifest asks for.
pub proof fn law_granted(s: Seq<Installed>, k: int)
    requires
        0 <= k < source_modules(s).len(),
    ensures
        exists|i: int|
            0 <= i < s.len() && (#[trigger] s[i]).manifest.kind@ == "source"@
                && s[i].manifest.wasm is Some && source_modules(s)[k] == (SourceModuleView {
                id: s[i].manifest.id@,
                wasm: paths::joined_path(s[i].dir@, s[i].manifest.wasm->0@),
                powers: powers_of(s[i].manifest.capabilities.deep_view()),
            }),
    decreases s.len(),
{
    let rest = s.drop_last();
    assert(s.last() == s[s.len() - 1]);
    if k < source_modules(rest).len() {
        law_granted(rest, k);
        let i = choose|i: int|
            0 <= i < rest.len() && (#[trigger] rest[i]).manifest.kind@ == "source"@
                && rest[i].manifest.wasm is Some && source_modules(rest)[k] == (SourceModuleView {
                id: rest[i].manifest.id@,
                wasm: paths::joined_path(rest[i].dir@, rest[i].manifest.wasm->0@),
                powers: powers_of(rest[i].manifest.capabilities.deep_view()),
            });
        assert(rest[i] == s[i]);
    }
}

/// A plugin whose manifest lists no capability is granted no power.
pub proof fn law_no_powers(m: PluginManifest)
    requires
        m.capabilities@.len() == 0,
    ensures
        powers_of(m.capabilities.deep_view()) == (Powers { http: false, kv: false }),
{
}

// ---- key-value store ----

struct KvEntry {
    plugin: String,
    key: String,
    value: String,
}

/// What the plugins have stored, each under keys of its own.
pub struct KvStore {
    entries: Vec<KvEntry>,
}

spec fn stored(s: Seq<KvEntry>) -> Map<(Seq<char>, Seq<char>), Seq<char>>
    decreases s.len(),
{
    if s.len() == 0 {
        Map::empty()
    } else {
        stored(s.drop_last()).insert((s.last().plugin@, s.last().key@), s.last().value@)
    }
}

impl View for KvStore {
    type V = Map<(Seq<char>, Seq<char>), Seq<char>>;

    closed spec fn view(&self) -> Map<(Seq<char>, Seq<char>), Seq<char>> {
        stored(self.entries@)
    }
}

/// The value that a plugin has under a key; empty where it has none.
pub open spec fn kv_value(
    m: Map<(Seq<char>, Seq<char>), Seq<char>>,
    plugin: Seq<char>,
    key: Seq<char>,
) -> Seq<char> {
    if m.contains_key((plugin, key)) {
        m[(plugin, key)]
    } else {
        ""@
    }
}

/// The store without everything of a plugin.
pub open spec fn without_plugin(
    m: Map<(Seq<char>, Seq<char>), Seq<char>>,
    plugin: Seq<char>,
) -> Map<(Seq<char>, Seq<char>), Seq<char>> {
    Map::new(|k: (Seq<char>, Seq<char>)| m.contains_key(k) && k.0 != plugin, |k| m[k])
}

impl KvStore {
    /// An empty store.
    pub fn new() -> (r: Self)
        ensures
            r@ == Map::<(Seq<char>, Seq<char>), Seq<char>>::empty(),
    {
        KvStore { entries: Vec::new() }
    }

    /// The value that a plugin has under a key; empty where it has none.
    pub fn get(&self, plugin: &str, key: &str) -> (r: String)
        ensures
            r@ == kv_value(self@, plugin@, key@),
    {
        let ghost all = self.entries@;
        let mut i: usize = self.entries.len();
        assert(all.take(i as int) =~= all);
        while i > 0
            invariant
                all == self.entries@,
                i <= all.len(),
                kv_value(stored(all), plugin@, key@) == kv_value(
                    stored(all.take(i as int)),
                    plugin@,
                    key@,
                ),
            decreases i,
        {
            assert(all.take(i as int).drop_last() =~= all.take(i - 1));
            let e = &self.entries[i - 1];
            if text::same(e.plugin.as_str(), plugin) && text::same(e.key.as_str(), key) {
                return e.value.clone();
            }
            i -= 1;
        }
        "".to_string()
    }

    /// Stores a value of a plugin under a key.
    pub fn set(&mut self, plugin: &str, key: &str, value: &str)
        ensures
            final(self)@ == old(self)@.insert((plugin@, key@), value@),
    {
        let mut kept: Vec<KvEntry> = Vec::new();
        let ghost all = self.entries@;
        let mut i: usize = 0;
        while i < self.entries.len()
            invariant
                all == self.entries@,
                i <= all.len(),
                stored(kept@) == stored(all.take(i as int)).remove((plugin@, key@)),
            decreases all.len() - i,
        {
            assert(all.take(i + 1).drop_last() =~= all.take(i as int));
            let e = &self.entries[i];
            if !(text::same(e.plugin.as_str(), plugin) && text::same(e.key.as_str(), key)) {
                let ghost before = kept@;
                kept.push(copy(e));
                assert(kept@.drop_last() =~= before);
            }
            assert(stored(kept@) =~= stored(all.take(i + 1)).remove((plugin@, key@)));
            i += 1;
        }
        assert(all.take(all.len() as int) =~= all);
        let ghost before = kept@;
        kept.push(
            KvEntry {
                plugin: plugin.to_string(),
                key: key.to_string(),
                value: value.to_string(),
            },
        );
        assert(kept@.drop_last() =~= before);
        self.entries = kept;
        assert(self@ =~= old(self)@.insert((plugin@, key@), value@));
    }

    /// Drops everything of a plugin.
    pub fn forget(&mut self, plugin: &str)
        ensures
            final(self)@ == without_plugin(old(self)@, plugin@),
    {
        let mut kept: Vec<KvEntry> = Vec::new();
        let ghost all = self.entries@;
        let mut i: usize = 0;
        assert(stored(kept@) =~= without_plugin(stored(all.take(0)), plugin@));
        while i < self.entries.len()
            invariant
                all == self.entries@,
                i <= all.len(),
                stored(kept@) == without_plugin(stored(all.take(i as int)), plugin@),
            decreases all.len() - i,
        {
            assert(all.take(i + 1).drop_last() =~= all.take(i as int));
            let e = &self.entries[i];
            if !text::same(e.plugin.as_str(), plugin) {
                let ghost before = kept@;
                kept.push(copy(e));
                assert(kept@.drop_last() =~= before);
            }
            assert(stored(kept@) =~= without_plugin(stored(all.take(i + 1)), plugin@));
            i += 1;
        }
        assert(all.take(all.len() as int) =~= all);
        self.entries = kept;
    }
}

fn copy(e: &KvEntry) -> (r: KvEntry)
    ensures
        r.plugin@ == e.plugin@,
        r.key@ == e.key@,
        r.value@ == e.value@,
{
    KvEntry { plugin: e.plugin.clone(), key: e.key.clone(), value: e.value.clone() }
}

/// A plugin reads back what it stored.
pub proof fn law_kv_read_back(
    m: Map<(Seq<char>, Seq<char>), Seq<char>>,
    plugin: Seq<char>,
    key: Seq<char>,
    value: Seq<char>,
)
    ensures
        kv_value(m.insert((plugin, key), value), plugin, key) == value,
{
}

/// What one plugin stores changes nothing under its other keys, and nothing
/// of any other plugin.
pub proof fn law_kv_isolation(
    m: Map<(Seq<char>, Seq<char>), Seq<char>>,
    plugin: Seq<char>,
    key: Seq<char>,
    value: Seq<char>,
    other: Seq<char>,
    other_key: Seq<char>,
)
    requires
        plugin != other || key != other_key,
    ensures
        kv_value(m.insert((plugin, key), value), other, other_key) == kv_value(
            m,
            other,
            other_key,
        ),
{
}

/// Dropping a plugin empties its own keys and leaves every other plugin's.
pub proof fn law_kv_forget(
    m: Map<(Seq<char>, Seq<char>), Seq<char>>,
    plugin: Seq<char>,
    other: Seq<char>,
    key: Seq<char>,
)
    ensures
        kv_value(without_plugin(m, plugin), plugin, key) == ""@,
        other != plugin ==> kv_value(without_plugin(m, plugin), other, key) == kv_value(
            m,
            other,
            key,
        ),
{
}

/// The host as one plugin sees it.
pub struct HostCtx {
    pub plugin_id: String,
}

impl HostCtx {
    /// The value that the plugin has under a key; empty where it has none.
    pub fn kv_get(&self, kv: &KvStore, key: &str) -> (r: String)
        ensures
            r@ == kv_value(kv@, self.plugin_id@, key@),
    {
        kv.get(self.plugin_id.as_str(), key)
    }

    /// Stores a value of the plugin under a key.
    pub fn kv_set(&self, kv: &mut KvStore, key: &str, value: &str)
        ensures
            final(kv)@ == old(kv)@.insert((self.plugin_id@, key@), value@),
    {
        kv.set(self.plugin_id.as_str(), key, value);
    }
}

// ---- what plugins are used for ----

/// A plugin shows a format exactly where it is a viewer whose list of formats
/// has it.
pub proof fn law_shows(m: PluginManifest, format: Seq<char>)
    ensures
        m.kind@ != "viewer"@ || m.ui is None ==> !shows(m, format),
        m.kind@ == "viewer"@ && m.ui is Some ==> (shows(m, format) <==> exists|i: int|
            0 <= i < m.ui->0.formats@.len() && (#[trigger] m.ui->0.formats@[i])@ == format),
{
    if m.kind@ == "viewer"@ && m.ui is Some {
        let formats = m.ui->0.formats;
        if shows(m, format) {
            let i = choose|i: int|
                0 <= i < formats.deep_view().len() && formats.deep_view()[i] == format;
            assert(formats@[i]@ == format);
        }
        if exists|i: int| 0 <= i < formats@.len() && (#[trigger] formats@[i])@ == format {
            let i = choose|i: int| 0 <= i < formats@.len() && (#[trigger] formats@[i])@ == format;
            assert(formats.deep_view()[i] == format);
        }
    }
}

/// A power is granted exactly where it is on the list, each by its own name.
pub proof fn law_powers(capabilities: Seq<Seq<char>>)
    ensures
        powers_of(capabilities).http <==> capabilities.contains("http"@),
        powers_of(capabilities).kv <==> capabilities.contains("kv"@),
{
}

/// No source is left out: one more installed source with a module is one more
/// module at the end, from its own directory, and any other plugin changes
/// nothing.
pub proof fn law_one_more_source(s: Seq<Installed>, p: Installed)
    ensures
        p.manifest.kind@ == "source"@ ==> (p.manifest.wasm matches Some(wasm) ==> source_modules(
            s.push(p),
        ) == source_modules(s).push(
            SourceModuleView {
                id: p.manifest.id@,
                wasm: paths::joined_path(p.dir@, wasm@),
                powers: Powers {
                    http: p.manifest.capabilities.deep_view().contains("http"@),
                    kv: p.manifest.capabilities.deep_view().contains("kv"@),
                },
            },
        )),
        p.manifest.kind@ != "source"@ || p.manifest.wasm is None ==> source_modules(s.push(p))
            == source_modules(s),
        source_modules(seq![]).len() == 0,
{
    assert(s.push(p).drop_last() =~= s);
}

/// Every part of a source module is seen as itself.
pub proof fn law_source_module_view(x: SourceModule)
    ensures
        x.deep_view().id == x.id@,
        x.deep_view().wasm == x.wasm@,
        x.deep_view().powers == x.powers,
{
}

/// The viewer of a format is an installed plugin that shows it, and there is none
/// only where no installed plugin does; a plugin has just the powers that its
/// manifest lists.
pub proof fn law_viewer(
    installed: &Vec<Installed>,
    format: &str,
    r: Option<&PluginManifest>,
    m: &PluginManifest,
    p: Powers,
)
    requires
        call_ensures(viewer_for, (installed, format), r),
        call_ensures(granted, (m,), p),
    ensures
        r matches Some(v) ==> v.kind@ == "viewer"@ && exists|i: int|
            0 <= i < installed@.len() && (#[trigger] installed@[i]).manifest == *v,
        r is None ==> forall|i: int|
            0 <= i < installed@.len() ==> !shows((#[trigger] installed@[i]).manifest, format@),
        p.http <==> m.capabilities.deep_view().contains("http"@),
        p.kv <==> m.capabilities.deep_view().contains("kv"@),
{
    law_first_viewer(installed@, format@, 0);
}

} // verus!
